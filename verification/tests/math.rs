use signal_pipeline::math::{
    MixtureOptimization, OptimizeError, find_concentration, find_max_low, find_weakest_component,
    generate_component_set, valid_comparison, vectorize,
};
use signal_pipeline::refrigerant::{ClassificationList, GCReading, RefrigerantMixture, RefrigerantName};

fn name(s: &str) -> RefrigerantName {
    RefrigerantName::new(&String::from(s)).unwrap()
}

fn reading(entries: &[(&str, i64)]) -> GCReading {
    let mut comps = Vec::new();
    for (n, c) in entries {
        comps.push((name(n), *c));
    }
    GCReading::new(comps)
}

fn mixture(id: &str, entries: &[(&str, i64)]) -> RefrigerantMixture {
    let mut comps = Vec::new();
    for (n, c) in entries {
        comps.push((name(n), *c));
    }
    RefrigerantMixture::new(name(id), comps, ClassificationList::new(Vec::new()))
}

#[test]
fn valid_comparison_checks_coverage() {
    let r = reading(&[("R32", 600_000), ("R125", 400_000)]);
    let covered = mixture("R410A", &[("R32", 500_000), ("R125", 500_000)]);
    let uncovered = mixture("R407C", &[("R32", 230_000), ("R134A", 520_000)]);
    assert!(valid_comparison(&r, &covered));
    assert!(!valid_comparison(&r, &uncovered));
}

#[test]
fn weakest_component_is_capped_minimum_ratio() {
    let r = reading(&[("R32", 600_000), ("R125", 400_000)]);
    let m = mixture("R410A", &[("R32", 500_000), ("R125", 500_000)]);
    // R32 covers 1.2 of its share, capped to 1.0; R125 covers 0.8
    assert_eq!(find_weakest_component(&r, &m), 800_000);
}

#[test]
fn concentration_requires_coverage() {
    let r = reading(&[("R32", 600_000), ("R125", 400_000)]);
    let covered = mixture("R410A", &[("R32", 500_000), ("R125", 500_000)]);
    let uncovered = mixture("R407C", &[("R32", 230_000), ("R134A", 520_000)]);
    assert_eq!(find_concentration(&r, &covered), Some(800_000));
    assert_eq!(find_concentration(&r, &uncovered), None);
}

#[test]
fn zero_share_counts_as_covered() {
    let r = reading(&[("R32", 0), ("R125", 900_000)]);
    let m = mixture("MIX", &[("R32", 0), ("R125", 900_000)]);
    assert_eq!(find_weakest_component(&r, &m), 1_000_000);
}

#[test]
fn max_low_is_smallest_low_foreign_component() {
    let m = mixture("R410A", &[("R32", 500_000), ("R125", 500_000)]);
    let r = reading(&[("R32", 920_000), ("R290", 30_000), ("R600A", 20_000)]);
    assert_eq!(find_max_low(&r, &m), 20_000);
    let clean = reading(&[("R32", 500_000), ("R125", 500_000)]);
    assert_eq!(find_max_low(&clean, &m), 0);
}

#[test]
fn vectorize_fills_missing_with_zero() {
    let m = mixture("R410A", &[("R32", 500_000), ("R125", 500_000)]);
    let keys = vec![name("R125"), name("R290"), name("R32")];
    assert_eq!(vectorize(&m, &keys), vec![500_000, 0, 500_000]);
}

#[test]
fn component_set_is_sorted_union() {
    let m1 = mixture("R410A", &[("R32", 500_000), ("R125", 500_000)]);
    let m2 = mixture("ISO", &[("R125", 1_000_000), ("R600A", 0)]);
    let targets = vec![(&m1, 0i64), (&m2, 100_000i64)];
    let set = generate_component_set(&targets);
    assert_eq!(set.len(), 3);
    assert_eq!(set[0].as_ref(), "R125");
    assert_eq!(set[1].as_ref(), "R32");
    assert_eq!(set[2].as_ref(), "R600A");
}

#[test]
fn optimization_problem_data() {
    let r = reading(&[("R32", 600_000), ("R125", 400_000)]);
    let m1 = mixture("R410A", &[("R32", 500_000), ("R125", 500_000)]);
    let m2 = mixture("PURE125", &[("R125", 1_000_000)]);
    let problem = MixtureOptimization::new(&r, vec![(&m1, 0i64), (&m2, 100_000i64)]);
    assert_eq!(problem.components.len(), 2);
    assert_eq!(problem.components[0].as_ref(), "R125");
    assert_eq!(problem.components[1].as_ref(), "R32");
    assert_eq!(problem.coefficients, vec![vec![500_000, 1_000_000], vec![500_000, 0]]);
    assert_eq!(problem.rhs, vec![400_000, 600_000]);
    assert_eq!(problem.variable_mins, vec![0, 100_000]);
    assert_eq!(problem.identifiers.len(), 2);
    assert_eq!(problem.identifiers[0].as_ref(), "R410A");
    assert_eq!(problem.identifiers[1].as_ref(), "PURE125");
}

#[test]
fn max_refrigerant_lookup() {
    let r = reading(&[("R32", 600_000), ("R125", 400_000)]);
    let m1 = mixture("R410A", &[("R32", 500_000), ("R125", 500_000)]);
    let m2 = mixture("PURE125", &[("R125", 1_000_000)]);
    let problem = MixtureOptimization::new(&r, vec![(&m1, 0i64), (&m2, 100_000i64)]);
    assert_eq!(problem.max_refrigerant_index(&name("PURE125")), Ok(1));
    assert_eq!(problem.max_refrigerant_index(&name("R410A")), Ok(0));
    assert_eq!(
        problem.max_refrigerant_index(&name("R22")),
        Err(OptimizeError::RefrigerantNotInProblem)
    );
}

#[test]
fn optimize_error_message() {
    assert_eq!(
        OptimizeError::RefrigerantNotInProblem.message(),
        "Requested max refrigerant is not a part of the optimization problem."
    );
}
