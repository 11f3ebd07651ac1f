use negative_space_core::{conservation_threshold, Decision, AVOIDANCE_RATIO};

#[test]
fn test_avoidance_ratio_constant() {
    // The fundamental constant: 294:1
    assert!((AVOIDANCE_RATIO as f64 - 294.0).abs() < f64::EPSILON);
}

#[test]
fn test_conservation_threshold() {
    let t = conservation_threshold();
    let threshold = t.num as f64 / t.den as f64;
    assert!(threshold <= 0.01);
    assert!(threshold > 0.0);
}

#[test]
fn test_decision_avoid() {
    let d = Decision::Avoid("bad_idea".into());
    assert!(d.is_avoid());
    assert!(!d.is_choose());
    assert_eq!(d.label(), "bad_idea");
}

#[test]
fn test_decision_choose() {
    let d = Decision::Choose("good_idea".into());
    assert!(d.is_choose());
    assert!(!d.is_avoid());
    assert_eq!(d.label(), "good_idea");
}

#[test]
fn decision_clone_keeps_kind_and_label() {
    let d = Decision::Avoid("x".into());
    let c = d.clone();
    assert!(c.is_avoid());
    assert_eq!(c.label(), "x");
}

#[test]
fn decisions_compare_by_kind_and_label() {
    assert_eq!(Decision::Avoid("a".into()), Decision::Avoid("a".into()));
    assert_ne!(Decision::Avoid("a".into()), Decision::Choose("a".into()));
    assert_ne!(Decision::Choose("a".into()), Decision::Choose("b".into()));
}
