use signal_pipeline::refrigerant::{
    ClassificationList, EvaluateError, GCReading, RefrigerantClassification, RefrigerantMixture,
    RefrigerantName,
};

fn name(s: &str) -> RefrigerantName {
    RefrigerantName::new(&String::from(s)).unwrap()
}

fn reading(entries: &[(&str, i64)]) -> GCReading {
    let mut comps = Vec::new();
    for (n, c) in entries {
        comps.push((name(n), *c));
    }
    GCReading::new(comps)
}

fn mixture(id: &str, entries: &[(&str, i64)]) -> RefrigerantMixture {
    let mut comps = Vec::new();
    for (n, c) in entries {
        comps.push((name(n), *c));
    }
    RefrigerantMixture::new(name(id), comps, ClassificationList::new(Vec::new()))
}

#[test]
fn name_is_normalized() {
    let n = name("r 134 a");
    assert_eq!(n.as_ref(), "R134A");
}

#[test]
fn normalize_uppercases_and_strips_spaces() {
    assert_eq!(RefrigerantName::normalize(&String::from("  mix ed ")).unwrap(), "MIXED");
    assert_eq!(RefrigerantName::normalize(&String::from("R32")).unwrap(), "R32");
}

#[test]
fn reading_lookup() {
    let r = reading(&[("R32", 600_000), ("R125", 400_000)]);
    assert_eq!(r.get_component(&name("R32")), Some(600_000));
    assert_eq!(r.get_component(&name("r 32")), Some(600_000));
    assert_eq!(r.get_component(&name("R600A")), None);
}

#[test]
fn reading_component_set() {
    let r = reading(&[("R32", 600_000), ("R125", 400_000)]);
    let set = r.component_set();
    assert_eq!(set.len(), 2);
    assert_eq!(set[0].as_ref(), "R32");
    assert_eq!(set[1].as_ref(), "R125");
}

#[test]
fn mixture_accessors() {
    let m = mixture("R410A", &[("R32", 500_000), ("R125", 500_000)]);
    assert_eq!(m.identifier().as_ref(), "R410A");
    assert_eq!(m.get_component(&name("R32")), Some(500_000));
    assert_eq!(m.get_component(&name("R290")), None);
    assert_eq!(m.components().len(), 2);
    assert_eq!(m.component_set().len(), 2);
}

#[test]
fn evaluate_rejects_covered_reading_as_invalid_comparison() {
    // the comparison gate fires exactly when the reading covers the
    // target's components
    let class = RefrigerantClassification {
        purity: 990_000,
        max_lows: Some(10_000),
        mixed_with: Vec::new(),
    };
    let r = reading(&[("R32", 600_000), ("R125", 400_000)]);
    let m = mixture("R410A", &[("R32", 500_000), ("R125", 500_000)]);
    assert_eq!(class.evaluate(&r, &m), Err(EvaluateError::InvalidComparison));
}

#[test]
fn evaluate_rejects_excess_lows() {
    let class = RefrigerantClassification {
        purity: 990_000,
        max_lows: Some(10_000),
        mixed_with: Vec::new(),
    };
    // reading misses R125, so the comparison gate does not fire; the
    // foreign low component R290 exceeds the bound
    let r = reading(&[("R32", 960_000), ("R290", 30_000)]);
    let m = mixture("R410A", &[("R32", 500_000), ("R125", 500_000)]);
    assert_eq!(class.evaluate(&r, &m), Err(EvaluateError::MaxLowsExceeded));
}

#[test]
fn evaluate_error_messages() {
    assert_eq!(EvaluateError::InvalidComparison.message(), "Not a valid comparison");
    assert_eq!(EvaluateError::MaxLowsExceeded.message(), "Max lows not within bounds");
}

#[test]
fn classification_defaults_to_mixed() {
    let class = RefrigerantClassification {
        purity: 990_000,
        max_lows: Some(10_000),
        mixed_with: Vec::new(),
    };
    let rules = ClassificationList::new(vec![(String::from("pure"), class)]);
    let r = reading(&[("R32", 600_000), ("R125", 400_000)]);
    let m = mixture("R410A", &[("R32", 500_000), ("R125", 500_000)]);
    let result = rules.get_classification(&r, &m);
    assert_eq!(result.label, "Mixed");
    assert_eq!(result.origin.as_ref(), "R410A");
    assert_eq!(result.purity, 0);
    assert_eq!(result.components.len(), 0);
}

#[test]
fn classify_uses_own_rules() {
    let class = RefrigerantClassification {
        purity: 990_000,
        max_lows: None,
        mixed_with: Vec::new(),
    };
    let r = reading(&[("R32", 600_000), ("R125", 400_000)]);
    let m = RefrigerantMixture::new(
        name("R410A"),
        vec![(name("R32"), 500_000), (name("R125"), 500_000)],
        ClassificationList::new(vec![(String::from("pure"), class)]),
    );
    let result = m.classify(&r);
    assert_eq!(result.label, "Mixed");
    assert_eq!(result.origin.as_ref(), "R410A");
}
