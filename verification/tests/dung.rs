//! Dung frameworks and their extension semantics.

use argumentation_suite::dung::{ArgumentationFramework, DungError};

fn chain() -> ArgumentationFramework {
    // a attacks b, b attacks c.
    let mut af = ArgumentationFramework::new();
    af.add_argument("a");
    af.add_argument("b");
    af.add_argument("c");
    af.add_attack("a", "b").unwrap();
    af.add_attack("b", "c").unwrap();
    af
}

#[test]
fn grounded_extension_of_a_chain_defends_the_end() {
    let af = chain();
    assert_eq!(af.grounded_extension(), vec!["a".to_string(), "c".to_string()]);
}

#[test]
fn mutual_attack_has_two_preferred_and_empty_grounded() {
    let mut af = ArgumentationFramework::new();
    af.add_argument("x");
    af.add_argument("y");
    af.add_attack("x", "y").unwrap();
    af.add_attack("y", "x").unwrap();
    assert!(af.grounded_extension().is_empty());
    let prefs = af.preferred_extensions().unwrap();
    assert_eq!(prefs.len(), 2);
    assert!(prefs.contains(&vec!["x".to_string()]));
    assert!(prefs.contains(&vec!["y".to_string()]));
    let stable = af.stable_extensions().unwrap();
    assert_eq!(stable.len(), 2);
    let complete = af.complete_extensions().unwrap();
    assert_eq!(complete.len(), 3);
}

#[test]
fn odd_cycle_has_no_stable_extension() {
    let mut af = ArgumentationFramework::new();
    af.add_attack("a", "b").unwrap_err();
    for n in ["a", "b", "c"] {
        af.add_argument(n);
    }
    af.add_attack("a", "b").unwrap();
    af.add_attack("b", "c").unwrap();
    af.add_attack("c", "a").unwrap();
    assert!(af.stable_extensions().unwrap().is_empty());
    assert_eq!(af.preferred_extensions().unwrap(), vec![Vec::<String>::new()]);
}

#[test]
fn attack_on_unknown_argument_is_refused() {
    let mut af = ArgumentationFramework::new();
    af.add_argument("a");
    assert_eq!(af.add_attack("a", "zz"), Err(DungError::ArgumentNotFound("zz".to_string())));
    assert!(af.attackers("a").is_empty());
}

#[test]
fn enumeration_limit_is_reported() {
    let mut af = ArgumentationFramework::new();
    for i in 0..21 {
        af.add_argument(&format!("n{}", i));
    }
    assert_eq!(af.preferred_extensions(), Err(DungError::TooLarge { arguments: 21, limit: 20 }));
    assert_eq!(af.grounded_extension().len(), 21);
}
