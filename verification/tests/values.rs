//! Value-based frameworks: audiences, Pareto defeat, audience-relative
//! acceptance and consensus across audiences.

use argumentation_suite::dung::{ArgumentationFramework, DungError};
use argumentation_suite::values::acceptance::{objectively_accepted, permutations, subjectively_accepted};
use argumentation_suite::values::error::ValuesError;
use argumentation_suite::values::framework::ValueBasedFramework;
use argumentation_suite::values::multi::MultiAudience;
use argumentation_suite::values::types::{Audience, Value, ValueAssignment};

fn has(v: &[String], x: &str) -> bool {
    v.iter().any(|s| s == x)
}

fn total(names: &[&str]) -> Audience {
    Audience::total(names.iter().map(|n| Value::new(n)).collect())
}

fn hal_carla() -> ValueBasedFramework {
    let mut base = ArgumentationFramework::new();
    for arg in ["h1", "c1", "h2", "c2"] {
        base.add_argument(arg);
    }
    base.add_attack("h1", "c1").unwrap();
    base.add_attack("c1", "h1").unwrap();
    base.add_attack("c2", "h2").unwrap();
    base.add_attack("h2", "c1").unwrap();
    let mut values = ValueAssignment::new();
    values.promote("h1", Value::new("life"));
    values.promote("c1", Value::new("property"));
    values.promote("h2", Value::new("fairness"));
    values.promote("c2", Value::new("life"));
    ValueBasedFramework::new(base, values)
}

fn binary_attack(a_values: &[&str], b_values: &[&str]) -> ValueBasedFramework {
    let mut base = ArgumentationFramework::new();
    base.add_argument("a");
    base.add_argument("b");
    base.add_attack("a", "b").unwrap();
    let mut values = ValueAssignment::new();
    for v in a_values {
        values.promote("a", Value::new(v));
    }
    for v in b_values {
        values.promote("b", Value::new(v));
    }
    ValueBasedFramework::new(base, values)
}

fn framework_two_args_mutual_attack() -> ValueBasedFramework {
    let mut base = ArgumentationFramework::new();
    base.add_argument("h1");
    base.add_argument("c1");
    base.add_attack("h1", "c1").unwrap();
    base.add_attack("c1", "h1").unwrap();
    let mut values = ValueAssignment::new();
    values.promote("h1", Value::new("life"));
    values.promote("c1", Value::new("property"));
    ValueBasedFramework::new(base, values)
}

// ------------------------------------------------------------------ types

#[test]
fn value_assignment_dedupes_promotions() {
    let mut va = ValueAssignment::new();
    va.promote("a", Value::new("life"));
    va.promote("a", Value::new("life"));
    assert_eq!(va.values("a").len(), 1);
}

#[test]
fn value_assignment_accepts_multi_value() {
    let mut va = ValueAssignment::new();
    va.promote("a", Value::new("life"));
    va.promote("a", Value::new("autonomy"));
    assert_eq!(va.values("a").len(), 2);
}

#[test]
fn value_assignment_lists_distinct_values_in_ascending_order() {
    let mut va = ValueAssignment::new();
    va.promote("b", Value::new("property"));
    va.promote("a", Value::new("life"));
    va.promote("a", Value::new("property"));
    let names: Vec<String> = va.distinct_values().iter().map(|v| v.as_str().to_string()).collect();
    assert_eq!(names, vec!["life".to_string(), "property".to_string()]);
    assert!(va.values("nobody").is_empty());
    assert_eq!(va.entries().len(), 2);
}

#[test]
fn audience_total_orders_strictly() {
    let a = total(&["life", "property"]);
    assert!(a.prefers(&Value::new("life"), &Value::new("property")));
    assert!(!a.prefers(&Value::new("property"), &Value::new("life")));
}

#[test]
fn audience_unranked_values_are_incomparable() {
    let a = total(&["life"]);
    assert!(!a.prefers(&Value::new("property"), &Value::new("life")));
    assert!(!a.prefers(&Value::new("life"), &Value::new("property")));
}

#[test]
fn audience_intra_tier_values_are_incomparable() {
    let a = Audience::from_tiers(vec![vec![Value::new("life"), Value::new("liberty")]]);
    assert!(!a.prefers(&Value::new("life"), &Value::new("liberty")));
    assert!(!a.prefers(&Value::new("liberty"), &Value::new("life")));
}

#[test]
fn audience_distinct_values_count() {
    let a = Audience::from_tiers(vec![vec![Value::new("a"), Value::new("b")], vec![Value::new("c")]]);
    assert_eq!(a.value_count(), 3);
    assert_eq!(a.tier_count(), 2);
}

#[test]
fn audience_value_count_ignores_repeated_values() {
    let a = Audience::from_tiers(vec![vec![Value::new("a"), Value::new("b")], vec![Value::new("a")]]);
    assert_eq!(a.value_count(), 2);
    assert_eq!(a.values().len(), 2);
    assert_eq!(a.rank(&Value::new("a")), Some(0));
}

#[test]
fn audience_rank_returns_tier_index() {
    let a = Audience::from_tiers(vec![vec![Value::new("life"), Value::new("liberty")], vec![Value::new("property")]]);
    assert_eq!(a.rank(&Value::new("life")), Some(0));
    assert_eq!(a.rank(&Value::new("liberty")), Some(0));
    assert_eq!(a.rank(&Value::new("property")), Some(1));
    assert_eq!(a.rank(&Value::new("comfort")), None);
}

// ----------------------------------------------------------------- defeat

#[test]
fn life_audience_defeats_property_attack() {
    let vaf = framework_two_args_mutual_attack();
    let audience = total(&["life", "property"]);
    assert!(vaf.defeats("h1", "c1", &audience));
    assert!(!vaf.defeats("c1", "h1", &audience));
}

#[test]
fn property_audience_inverts_defeats() {
    let vaf = framework_two_args_mutual_attack();
    let audience = total(&["property", "life"]);
    assert!(!vaf.defeats("h1", "c1", &audience));
    assert!(vaf.defeats("c1", "h1", &audience));
}

#[test]
fn null_promotion_attacker_always_defeats() {
    let vaf = binary_attack(&[], &["life"]);
    let audience = total(&["life"]);
    assert!(vaf.defeats("a", "b", &audience));
}

#[test]
fn empty_audience_preserves_all_attacks() {
    let vaf = framework_two_args_mutual_attack();
    let audience = Audience::new();
    assert!(vaf.defeats("h1", "c1", &audience));
    assert!(vaf.defeats("c1", "h1", &audience));
}

#[test]
fn defeat_graph_filters_attacks() {
    let vaf = framework_two_args_mutual_attack();
    let audience = total(&["life", "property"]);
    let defeat = vaf.defeat_graph(&audience).unwrap();
    assert_eq!(defeat.attackers("h1").len(), 0);
    assert_eq!(defeat.attackers("c1").len(), 1);
}

#[test]
fn pareto_defeat_when_attacker_dominates() {
    let vaf = binary_attack(&["life", "autonomy"], &["property"]);
    let aud = total(&["life", "property"]);
    assert!(vaf.defeats("a", "b", &aud));
}

#[test]
fn pareto_defeat_blocked_when_target_strictly_dominates_every_attacker_value() {
    let vaf = binary_attack(&["property"], &["life", "autonomy"]);
    let aud = total(&["life", "autonomy", "property"]);
    assert!(!vaf.defeats("a", "b", &aud));
}

#[test]
fn pareto_defeat_one_target_value_can_save_the_target() {
    let vaf = binary_attack(&["fairness"], &["fairness", "life"]);
    let aud = total(&["life", "fairness"]);
    assert!(!vaf.defeats("a", "b", &aud));
}

#[test]
fn pareto_defeat_reduces_to_benchcapon_for_single_values() {
    let vaf = binary_attack(&["life"], &["property"]);
    assert!(vaf.defeats("a", "b", &total(&["life", "property"])));
    assert!(!vaf.defeats("a", "b", &total(&["property", "life"])));
}

#[test]
fn unranked_target_value_does_not_save_target() {
    let vaf = binary_attack(&["life"], &["fairness"]);
    assert!(vaf.defeats("a", "b", &total(&["life"])));
}

#[test]
fn unranked_attacker_value_can_still_defeat_unranked_target() {
    let vaf = binary_attack(&["honor"], &["tradition"]);
    assert!(vaf.defeats("a", "b", &total(&["life"])));
}

// ------------------------------------------------------------- acceptance

#[test]
fn life_over_property_grounds_hal() {
    let vaf = hal_carla();
    let grounded = vaf.grounded_for(&total(&["life", "property"])).unwrap();
    assert!(has(&grounded, "h1"), "h1 should be grounded under [life > property]");
    assert!(has(&grounded, "c2"), "c2 should be grounded under [life > property]");
    assert!(!has(&grounded, "c1"), "c1 should be defeated under [life > property]");
    assert!(!has(&grounded, "h2"), "h2 should be defeated under [life > property]");
}

#[test]
fn property_over_life_grounds_carla() {
    let vaf = hal_carla();
    let grounded = vaf.grounded_for(&total(&["property", "life"])).unwrap();
    assert!(has(&grounded, "c1"));
    assert!(has(&grounded, "c2"));
    assert!(!has(&grounded, "h1"));
    assert!(!has(&grounded, "h2"));
}

#[test]
fn incomparable_audience_yields_dung_result() {
    let vaf = hal_carla();
    let audience = Audience::from_tiers(vec![vec![Value::new("life"), Value::new("property")]]);
    let grounded = vaf.grounded_for(&audience).unwrap();
    assert!(has(&grounded, "c2"), "c2 always grounded (no in-edges)");
    assert!(!has(&grounded, "h1"));
    assert!(!has(&grounded, "c1"));
    assert!(!has(&grounded, "h2"), "h2 defeated by grounded c2");
}

#[test]
fn accepted_for_matches_grounded_for_unique_extension() {
    let vaf = hal_carla();
    let audience = total(&["life", "property"]);
    assert!(vaf.accepted_for(&audience, "h1").unwrap());
    assert!(vaf.accepted_for(&audience, "c2").unwrap());
    assert!(!vaf.accepted_for(&audience, "c1").unwrap());
    assert!(!vaf.accepted_for(&audience, "h2").unwrap());
    assert!(!vaf.accepted_for(&audience, "nobody").unwrap());
}

#[test]
fn c2_objectively_accepted() {
    let vaf = hal_carla();
    assert!(objectively_accepted(&vaf, "c2").unwrap());
}

#[test]
fn h1_subjectively_but_not_objectively_accepted() {
    let vaf = hal_carla();
    assert!(subjectively_accepted(&vaf, "h1").unwrap());
    assert!(!objectively_accepted(&vaf, "h1").unwrap());
}

#[test]
fn c1_subjectively_but_not_objectively_accepted() {
    let vaf = hal_carla();
    assert!(subjectively_accepted(&vaf, "c1").unwrap());
    assert!(!objectively_accepted(&vaf, "c1").unwrap());
}

#[test]
fn audience_too_large_returns_error() {
    let mut base = ArgumentationFramework::new();
    let args = ["a", "b", "c", "d", "e", "f", "g"];
    for arg in args {
        base.add_argument(arg);
    }
    let mut values = ValueAssignment::new();
    for (i, name) in ["v1", "v2", "v3", "v4", "v5", "v6", "v7"].iter().enumerate() {
        values.promote(args[i], Value::new(name));
    }
    let vaf = ValueBasedFramework::new(base, values);
    let result = subjectively_accepted(&vaf, "a");
    assert!(matches!(result, Err(ValuesError::AudienceTooLarge { values: 7, limit: 6 })));
}

#[test]
fn acceptance_reports_frameworks_too_large_for_preferred_semantics() {
    let mut base = ArgumentationFramework::new();
    for i in 0..21 {
        base.add_argument(&format!("a{}", i));
    }
    let vaf = ValueBasedFramework::new(base, ValueAssignment::new());
    let expected = ValuesError::Dung(DungError::TooLarge { arguments: 21, limit: 20 });
    assert_eq!(objectively_accepted(&vaf, "a0"), Err(expected.clone()));
    assert_eq!(vaf.accepted_for(&Audience::new(), "a0"), Err(expected));
}

#[test]
fn permutations_of_three_yields_six() {
    let perms = permutations(&[1, 2, 3]);
    assert_eq!(perms.len(), 6);
}

#[test]
fn permutations_of_zero_yields_one_empty() {
    let perms: Vec<Vec<i32>> = permutations(&[]);
    assert_eq!(perms.len(), 1);
    assert!(perms[0].is_empty());
}

#[test]
fn permutations_are_distinct_rearrangements() {
    let mut perms = permutations(&['a', 'b', 'c']);
    perms.sort();
    perms.dedup();
    assert_eq!(perms.len(), 6);
    assert!(perms.iter().all(|p| {
        let mut q = p.clone();
        q.sort();
        q == vec!['a', 'b', 'c']
    }));
}

// ------------------------------------------------------------- consensus

#[test]
fn common_grounded_across_opposing_audiences_yields_only_unanimous_winners() {
    let vaf = hal_carla();
    let auds = [total(&["life", "property"]), total(&["property", "life"])];
    let multi = MultiAudience::new(&auds);
    let common = multi.common_grounded(&vaf).unwrap();
    assert!(has(&common, "c2"));
    assert!(!has(&common, "h1"));
    assert!(!has(&common, "c1"));
}

#[test]
fn empty_audience_set_returns_all_arguments() {
    let vaf = hal_carla();
    let multi = MultiAudience::new(&[]);
    let common = multi.common_grounded(&vaf).unwrap();
    assert_eq!(common.len(), 4);
    assert_eq!(multi.common_credulous(&vaf).unwrap().len(), 4);
    assert!(multi.audiences().is_empty());
}

#[test]
fn common_credulous_is_superset_of_common_grounded() {
    let vaf = hal_carla();
    let auds = [total(&["life", "property"]), total(&["property", "life"])];
    let multi = MultiAudience::new(&auds);
    let credulous = multi.common_credulous(&vaf).unwrap();
    let grounded = multi.common_grounded(&vaf).unwrap();
    for arg in &grounded {
        assert!(has(&credulous, arg), "common_grounded must subset common_credulous");
    }
}

// ---------------------------------------------------------------------
// APX text format
// ---------------------------------------------------------------------

use argumentation_suite::values::apx::{from_apx, to_apx};

#[test]
fn round_trip_small_vaf() {
    let input = r#"
% Hal & Carla in APX
arg(h1).
arg(c1).
att(h1, c1).
att(c1, h1).
val(h1, life).
val(c1, property).
valpref(life, property).
"#;
    let (vaf, audience) = from_apx(input).unwrap();
    assert_eq!(vaf.base().len(), 2);
    assert!(audience.prefers(&Value::new("life"), &Value::new("property")));
    let serialised = to_apx(&vaf, &audience);
    let (vaf2, audience2) = from_apx(&serialised).unwrap();
    assert_eq!(vaf2.base().len(), 2);
    assert!(audience2.prefers(&Value::new("life"), &Value::new("property")));
}

#[test]
fn parse_error_reports_line_and_predicate() {
    let input = "arg(a).\nbogus(stuff).\n";
    let err = from_apx(input).unwrap_err();
    match err {
        ValuesError::ApxParse { line, reason } => {
            assert_eq!(line, 2);
            assert!(reason.contains("unknown predicate"));
        }
        other => panic!("wrong error variant: {other:?}"),
    }
}

#[test]
fn comments_and_whitespace_ignored() {
    let input = r#"
% header comment
arg(a).   % trailing comment
arg(b).

att(a, b).
"#;
    let (vaf, _) = from_apx(input).unwrap();
    assert_eq!(vaf.base().len(), 2);
}

#[test]
fn empty_input_yields_empty_vaf() {
    let (vaf, audience) = from_apx("").unwrap();
    assert_eq!(vaf.base().len(), 0);
    assert_eq!(audience.value_count(), 0);
}

#[test]
fn multi_tier_audience_emerges_from_chained_prefs() {
    let input = r#"
arg(a).
arg(b).
arg(c).
val(a, life).
val(b, fairness).
val(c, property).
valpref(life, fairness).
valpref(fairness, property).
"#;
    let (_vaf, audience) = from_apx(input).unwrap();
    assert_eq!(audience.tier_count(), 3);
    assert!(audience.prefers(&Value::new("life"), &Value::new("fairness")));
    assert!(audience.prefers(&Value::new("fairness"), &Value::new("property")));
    assert!(audience.prefers(&Value::new("life"), &Value::new("property")));
}

#[test]
fn apx_writes_sorted_facts() {
    let input = "arg(b).\narg(a).\natt(b, a).\natt(a, b).\nval(b, x).\nval(a, y).\nval(a, x).\nvalpref(y, x).\n";
    let (vaf, audience) = from_apx(input).unwrap();
    assert_eq!(vaf.base().arguments(), vec!["b".to_string(), "a".to_string()]);
    let text = to_apx(&vaf, &audience);
    assert_eq!(
        text,
        "arg(a).\narg(b).\natt(b, a).\natt(a, b).\nval(a, y).\nval(a, x).\nval(b, x).\nvalpref(y, x).\n"
    );
}

#[test]
fn apx_attack_on_undeclared_argument_is_a_dung_error() {
    let err = from_apx("arg(a).\natt(a, z).\n").unwrap_err();
    assert_eq!(err, ValuesError::Dung(DungError::ArgumentNotFound("z".to_string())));
}

#[test]
fn apx_fact_without_period_is_reported() {
    let err = from_apx("arg(a)\n").unwrap_err();
    assert_eq!(
        err,
        ValuesError::ApxParse { line: 1, reason: "expected fact ending with '.', got: arg(a)".to_string() }
    );
}

#[test]
fn apx_wrong_arity_is_reported() {
    let err = from_apx("arg(a).\n\natt(a).\n").unwrap_err();
    assert_eq!(
        err,
        ValuesError::ApxParse { line: 3, reason: "att expects 2 arg(s), got 1".to_string() }
    );
}

#[test]
fn apx_malformed_parentheses_are_reported() {
    let err = from_apx("arg a.").unwrap_err();
    assert_eq!(err, ValuesError::ApxParse { line: 1, reason: "expected '(' in fact: arg a".to_string() });
    let err = from_apx("arg(a.").unwrap_err();
    assert_eq!(err, ValuesError::ApxParse { line: 1, reason: "expected ')' in fact: arg(a".to_string() });
    let err = from_apx("arg)a(.").unwrap_err();
    assert_eq!(err, ValuesError::ApxParse { line: 1, reason: "malformed fact: arg)a(".to_string() });
}

#[test]
fn apx_crlf_lines_and_duplicates() {
    let (vaf, _) = from_apx("arg(a).\r\narg(a).\r\narg( b ).\r\n").unwrap();
    assert_eq!(vaf.base().arguments(), vec!["a".to_string(), "b".to_string()]);
}

#[test]
fn apx_preference_cycle_is_one_tier() {
    let (_, audience) = from_apx("valpref(x, y).\nvalpref(y, x).\nvalpref(y, z).\n").unwrap();
    assert_eq!(audience.tier_count(), 1);
    assert!(!audience.prefers(&Value::new("x"), &Value::new("z")));
    let (_, audience) = from_apx("valpref(c, a).\nvalpref(b, a).\n").unwrap();
    assert_eq!(audience.tier_count(), 2);
    assert_eq!(
        audience.values().iter().map(|v| v.as_str().to_string()).collect::<Vec<_>>(),
        vec!["b".to_string(), "c".to_string(), "a".to_string()]
    );
}

// ---------------------------------------------------------------------
// Value promotions from scheme instances
// ---------------------------------------------------------------------

use argumentation_suite::schemes::bindings::Bindings;
use argumentation_suite::schemes::catalog::default_catalog;
use argumentation_suite::schemes::instance::{instantiate, SchemeInstance};
use argumentation_suite::values::scheme_bridge::{
    from_scheme_instances, from_scheme_instances_with_name, DEFAULT_VALUES_SCHEME_NAME,
};

fn bind(pairs: &[(&str, &str)]) -> Bindings {
    let mut b = Bindings::new();
    for (k, v) in pairs {
        b.insert(k, v);
    }
    b
}

#[test]
fn extracts_value_from_argument_from_values_scheme() {
    let registry = default_catalog();
    let scheme = registry.by_key("argument_from_values").unwrap();
    let bindings = bind(&[("action", "uphold_honor"), ("value", "honor"), ("agent", "alice")]);
    let instance = instantiate(scheme, &bindings).unwrap();
    let to_arg = |inst: &SchemeInstance| inst.conclusion.text();
    let assignment = from_scheme_instances(&[(instance.clone(), bindings)], to_arg);
    let arg = instance.conclusion.text();
    let values = assignment.values(&arg);
    assert_eq!(values.len(), 1);
    assert_eq!(values[0].as_str(), "honor");
}

#[test]
fn skips_non_value_schemes() {
    let registry = default_catalog();
    let scheme = registry
        .by_key("argument_from_expert_opinion")
        .expect("argument_from_expert_opinion in default catalog");
    let bindings = bind(&[("expert", "alice"), ("domain", "military"), ("claim", "fortify")]);
    let instance = instantiate(scheme, &bindings).unwrap();
    let to_arg = |inst: &SchemeInstance| inst.conclusion.text();
    let assignment = from_scheme_instances(&[(instance.clone(), bindings)], to_arg);
    assert!(assignment.values(&instance.conclusion.text()).is_empty());
}

#[test]
fn custom_scheme_name_supported() {
    let registry = default_catalog();
    let scheme = registry.by_key("argument_from_values").unwrap();
    let bindings = bind(&[("action", "do_x"), ("value", "honor"), ("agent", "alice")]);
    let instance = instantiate(scheme, &bindings).unwrap();
    let to_arg = |inst: &SchemeInstance| inst.conclusion.text();
    let assignment =
        from_scheme_instances_with_name(&[(instance.clone(), bindings)], to_arg, "Some Other Scheme Name");
    assert!(assignment.values(&instance.conclusion.text()).is_empty());
}

#[test]
fn bridge_collects_several_values_per_argument() {
    let registry = default_catalog();
    let scheme = registry.by_key("argument_from_values").unwrap();
    let b1 = bind(&[("action", "x"), ("value", "honor"), ("agent", "a")]);
    let b2 = bind(&[("action", "x"), ("value", "duty"), ("agent", "b")]);
    let b3 = bind(&[("action", "x"), ("value", "honor"), ("agent", "c")]);
    let pairs: Vec<(SchemeInstance, Bindings)> = vec![
        (instantiate(scheme, &b1).unwrap(), b1.clone()),
        (instantiate(scheme, &b2).unwrap(), b2.clone()),
        (instantiate(scheme, &b3).unwrap(), b3.clone()),
    ];
    assert_eq!(DEFAULT_VALUES_SCHEME_NAME, "Argument from Values");
    let assignment = from_scheme_instances(&pairs, |inst: &SchemeInstance| inst.conclusion.text());
    let values: Vec<String> = assignment.values("do_x").iter().map(|v| v.as_str().to_string()).collect();
    assert_eq!(values, vec!["honor".to_string(), "duty".to_string()]);
}

#[test]
fn apx_round_trip_keeps_attacks_and_values() {
    let input = "arg(x).\narg(w).\narg(v).\natt(w, x).\natt(v, w).\nval(x, honour).\nval(x, duty).\nval(w, life).\nvalpref(life, duty).\n";
    let (vaf, audience) = from_apx(input).unwrap();
    let (vaf2, audience2) = from_apx(&to_apx(&vaf, &audience)).unwrap();
    assert_eq!(vaf2.base().arguments(), vec!["v".to_string(), "w".to_string(), "x".to_string()]);
    assert_eq!(vaf2.base().attackers("x"), vec!["w".to_string()]);
    assert_eq!(vaf2.base().attackers("w"), vec!["v".to_string()]);
    assert!(vaf2.base().attackers("v").is_empty());
    let names = |vs: &[Value]| vs.iter().map(|v| v.as_str().to_string()).collect::<Vec<_>>();
    assert_eq!(names(vaf2.value_assignment().values("x")), vec!["honour".to_string(), "duty".to_string()]);
    assert_eq!(names(vaf2.value_assignment().values("w")), vec!["life".to_string()]);
    assert!(audience2.prefers(&Value::new("life"), &Value::new("duty")));
    assert!(!audience2.prefers(&Value::new("duty"), &Value::new("life")));
}

#[test]
fn apx_stated_preferences_never_reversed() {
    let (_, audience) = from_apx("valpref(a, b).\nvalpref(b, c).\nvalpref(c, b).\nvalpref(d, a).\n").unwrap();
    assert!(audience.prefers(&Value::new("d"), &Value::new("a")));
    assert!(audience.prefers(&Value::new("a"), &Value::new("b")));
    assert!(!audience.prefers(&Value::new("b"), &Value::new("c")));
    assert!(!audience.prefers(&Value::new("c"), &Value::new("b")));
    assert_eq!(audience.rank(&Value::new("b")), audience.rank(&Value::new("c")));
}

#[test]
fn apx_round_trip_rebuilds_the_audience_preferences() {
    let mut base = ArgumentationFramework::new();
    base.add_argument("x");
    let vaf = ValueBasedFramework::new(base, ValueAssignment::new());
    let audience = Audience::from_tiers(vec![
        vec![Value::new("a")],
        vec![Value::new("b"), Value::new("c")],
        vec![Value::new("d")],
    ]);
    let (_, rebuilt) = from_apx(&to_apx(&vaf, &audience)).unwrap();
    let names = ["a", "b", "c", "d", "e"];
    for x in names.iter() {
        for y in names.iter() {
            let (vx, vy) = (Value::new(x), Value::new(y));
            assert_eq!(rebuilt.prefers(&vx, &vy), audience.prefers(&vx, &vy), "{} over {}", x, y);
        }
    }
    assert_eq!(rebuilt.tier_count(), 3);
}
