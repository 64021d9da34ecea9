//! Weighted bipolar frameworks: subsets of edges, residual frameworks and
//! acceptance at a budget.

use argumentation_suite::bipolar::framework::BipolarFramework;
use argumentation_suite::weighted::{
    check_support, credulous_in_some, dropped_mask, residual_framework, skeptical_in_all, subset_count, WeightedEdges,
    WeightedError, EDGE_ENUMERATION_LIMIT,
};

struct Weighted {
    args: Vec<String>,
    attacks: Vec<(String, String, f64)>,
    supports: Vec<(String, String, f64)>,
}

impl Weighted {
    fn new() -> Self {
        Weighted { args: Vec::new(), attacks: Vec::new(), supports: Vec::new() }
    }
    fn arg(&mut self, a: &str) {
        if !self.args.iter().any(|x| x == a) {
            self.args.push(a.to_string());
        }
    }
    fn attack(&mut self, a: &str, b: &str, w: f64) {
        self.arg(a);
        self.arg(b);
        self.attacks.push((a.to_string(), b.to_string(), w));
    }
    fn support(&mut self, a: &str, b: &str, w: f64) {
        self.arg(a);
        self.arg(b);
        self.supports.push((a.to_string(), b.to_string(), w));
    }
    fn residuals(&self, budget: f64) -> Result<Vec<BipolarFramework>, WeightedError> {
        let m_a = self.attacks.len();
        let m = m_a + self.supports.len();
        let total = subset_count(m)?;
        let atts: Vec<(String, String)> = self.attacks.iter().map(|(a, b, _)| (a.clone(), b.clone())).collect();
        let sups: Vec<(String, String)> = self.supports.iter().map(|(a, b, _)| (a.clone(), b.clone())).collect();
        let mut out = Vec::new();
        for bits in 0..total {
            let dropped = dropped_mask(bits, m);
            let mut cost = 0.0;
            for (i, (_, _, w)) in self.attacks.iter().enumerate() {
                if dropped[i] {
                    cost += w;
                }
            }
            for (j, (_, _, w)) in self.supports.iter().enumerate() {
                if dropped[m_a + j] {
                    cost += w;
                }
            }
            if cost > budget {
                continue;
            }
            out.push(residual_framework(&self.args, &atts, &sups, &dropped));
        }
        Ok(out)
    }
}

#[test]
fn subsets_are_numbered_by_bits() {
    assert_eq!(subset_count(3), Ok(8));
    assert_eq!(dropped_mask(5, 3), vec![true, false, true]);
    assert_eq!(dropped_mask(0, 2), vec![false, false]);
    assert_eq!(
        subset_count(EDGE_ENUMERATION_LIMIT + 1),
        Err(WeightedError::TooManyEdges { edges: 25, limit: 24 })
    );
}

#[test]
fn zero_budget_yields_single_residual_with_all_edges() {
    let mut w = Weighted::new();
    w.attack("a", "b", 0.3);
    w.support("c", "a", 0.2);
    let residuals = w.residuals(0.0).unwrap();
    assert_eq!(residuals.len(), 1);
    assert_eq!(residuals[0].attacks().len(), 1);
    assert_eq!(residuals[0].supports().len(), 1);
}

#[test]
fn large_budget_yields_full_power_set_over_edges() {
    let mut w = Weighted::new();
    w.attack("a", "b", 0.5);
    w.support("c", "a", 0.5);
    assert_eq!(w.residuals(10.0).unwrap().len(), 4);
}

#[test]
fn budget_at_cheapest_edge_yields_two_residuals() {
    let mut w = Weighted::new();
    w.attack("a", "b", 0.2);
    w.support("c", "a", 0.9);
    assert_eq!(w.residuals(0.2).unwrap().len(), 2);
}

#[test]
fn oversized_framework_rejected() {
    let mut w = Weighted::new();
    for i in 0..(EDGE_ENUMERATION_LIMIT + 1) {
        w.attack(&format!("x{}", 2 * i), &format!("x{}", 2 * i + 1), 0.1);
    }
    assert!(matches!(w.residuals(1.0), Err(WeightedError::TooManyEdges { .. })));
}

#[test]
fn every_residual_preserves_all_arguments() {
    let mut w = Weighted::new();
    w.arg("isolated");
    w.attack("a", "b", 0.5);
    for r in &w.residuals(1.0).unwrap() {
        assert_eq!(r.arguments().len(), 3);
    }
}

#[test]
fn residual_drops_exactly_the_marked_edges() {
    let args = vec!["a".to_string(), "b".to_string(), "c".to_string()];
    let atts = vec![("a".to_string(), "b".to_string()), ("b".to_string(), "c".to_string())];
    let sups = vec![("c".to_string(), "a".to_string())];
    let r = residual_framework(&args, &atts, &sups, &vec![true, false, true]);
    assert_eq!(r.arguments(), args);
    assert_eq!(r.attacks(), vec![("b".to_string(), "c".to_string())]);
    assert!(r.supports().is_empty());
}

#[test]
fn credulous_at_zero_budget_matches_bipolar_preferred() {
    let mut w = Weighted::new();
    w.attack("a", "b", 0.5);
    let rs = w.residuals(0.0).unwrap();
    assert_eq!(credulous_in_some(&rs, "a"), Ok(true));
    assert_eq!(credulous_in_some(&rs, "b"), Ok(false));
}

#[test]
fn tolerating_an_attack_makes_its_target_credulous() {
    let mut w = Weighted::new();
    w.attack("a", "b", 0.4);
    w.attack("c", "a", 0.6);
    let at0 = credulous_in_some(&w.residuals(0.0).unwrap(), "b").unwrap();
    let at05 = credulous_in_some(&w.residuals(0.5).unwrap(), "b").unwrap();
    assert!(at0);
    assert!(at05);
    assert_eq!(credulous_in_some(&w.residuals(0.5).unwrap(), "a"), Ok(false));
    assert_eq!(credulous_in_some(&w.residuals(0.6).unwrap(), "a"), Ok(true));
}

#[test]
fn skeptical_accepts_unattacked_self_supporter() {
    let mut w = Weighted::new();
    w.arg("a");
    assert_eq!(skeptical_in_all(&w.residuals(0.0).unwrap(), "a"), Ok(true));
}

#[test]
fn skeptical_fails_once_an_attack_can_be_tolerated_or_kept() {
    let mut w = Weighted::new();
    w.attack("a", "b", 0.4);
    assert_eq!(skeptical_in_all(&w.residuals(0.0).unwrap(), "b"), Ok(false));
    assert_eq!(skeptical_in_all(&w.residuals(0.5).unwrap(), "a"), Ok(true));
    assert_eq!(skeptical_in_all(&w.residuals(0.5).unwrap(), "b"), Ok(false));
}

#[test]
fn acceptance_with_no_residuals() {
    assert_eq!(credulous_in_some(&Vec::new(), "a"), Ok(false));
    assert_eq!(skeptical_in_all(&Vec::new(), "a"), Ok(true));
}

impl Weighted {
    fn credulous(&self, target: &str, budget: f64) -> bool {
        credulous_in_some(&self.residuals(budget).unwrap(), target).unwrap()
    }
    fn skeptical(&self, target: &str, budget: f64) -> bool {
        skeptical_in_all(&self.residuals(budget).unwrap(), target).unwrap()
    }
}

#[test]
fn tolerating_a_support_breaks_support_closure() {
    let mut w = Weighted::new();
    w.support("a", "b", 0.3);
    w.attack("c", "b", 0.6);
    let at0 = w.credulous("b", 0.0);
    let at_drop_support = w.credulous("b", 0.3);
    if at0 {
        assert!(at_drop_support, "credulous monotonicity violated");
    }
}

#[test]
fn credulous_monotone_in_budget() {
    let mut w = Weighted::new();
    w.attack("a", "b", 0.4);
    w.attack("c", "a", 0.6);
    let at0 = w.credulous("b", 0.0);
    let at05 = w.credulous("b", 0.5);
    if at0 {
        assert!(at05);
    }
}

#[test]
fn corroboration_under_budget_behaves_monotonically() {
    let mut w = Weighted::new();
    w.support("witness_1", "claim", 0.4);
    w.support("witness_2", "claim", 0.4);
    w.attack("alibi", "claim", 0.5);
    let at_0 = w.credulous("claim", 0.0);
    let at_05 = w.credulous("claim", 0.5);
    let at_08 = w.credulous("claim", 0.8);
    if at_0 {
        assert!(at_05, "credulous monotonicity: claim accepted at β=0 but not β=0.5");
    }
    if at_05 {
        assert!(at_08, "credulous monotonicity: claim accepted at β=0.5 but not β=0.8");
    }
    assert!(!at_0, "claim should be credulously rejected at β=0 (alibi attack binding)");
    assert!(at_05, "claim should be credulously accepted at β=0.5 (alibi attack tolerated)");
}

#[test]
fn betrayal_budget_reveals_sensitivity_in_skeptical_acceptance() {
    let mut w = Weighted::new();
    w.support("alice", "bob", 0.5);
    w.attack("charlie", "bob", 0.3);
    let at0 = w.skeptical("bob", 0.0);
    let at_betrayal = w.skeptical("bob", 0.5);
    if at_betrayal {
        assert!(at0);
    }
}

#[test]
fn weighted_edges_keep_arguments_once_and_refuse_self_support() {
    let mut e = WeightedEdges::new();
    e.add_attack("a", "b");
    e.add_argument("a");
    assert_eq!(e.add_support("c", "c"), Err(WeightedError::IllegalSelfSupport));
    assert_eq!(e.add_support("c", "a"), Ok(()));
    assert_eq!(e.arguments(), &vec!["a".to_string(), "b".to_string(), "c".to_string()]);
    assert_eq!(e.argument_count(), 3);
    assert_eq!(e.edge_count(), 2);
    assert_eq!(check_support("x", "x"), Err(WeightedError::IllegalSelfSupport));
    assert_eq!(check_support("x", "y"), Ok(()));
}

#[test]
fn weighted_edges_residual_drops_marked_edges() {
    let mut e = WeightedEdges::new();
    e.add_attack("a", "b");
    e.add_support("c", "b").unwrap();
    let kept = e.residual(&vec![false, false]);
    assert_eq!(kept.attacks(), vec![("a".to_string(), "b".to_string())]);
    assert_eq!(kept.supports(), vec![("c".to_string(), "b".to_string())]);
    let dropped = e.residual(&vec![true, true]);
    assert!(dropped.attacks().is_empty());
    assert!(dropped.supports().is_empty());
    assert_eq!(dropped.len(), 3);
}
