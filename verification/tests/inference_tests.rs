use negative_space_core::{AvoidanceTracker, Fraction, InferenceEngine};

fn value(f: Fraction) -> f64 {
    f.num as f64 / f.den as f64
}

#[test]
fn test_infer_between_similar() {
    let engine = InferenceEngine::default();
    let gap = engine.infer_between("option_a", "option_c");
    assert!(value(gap.confidence) > 0.5);
    assert!(!gap.inferred.is_empty());
}

#[test]
fn test_infer_between_different() {
    let engine = InferenceEngine::default();
    let gap = engine.infer_between("cat", "zebra");
    assert!(value(gap.confidence) < 0.5);
}

#[test]
fn test_infer_between_identical() {
    let engine = InferenceEngine::default();
    let gap = engine.infer_between("same", "same");
    assert_eq!(value(gap.confidence), 0.0);
}

#[test]
fn test_infer_from_agent() {
    let engine = InferenceEngine::new(Fraction::new(0, 1));
    let mut t = AvoidanceTracker::new("a1");
    t.record_avoidance("alpha");
    t.record_avoidance("gamma");
    t.record_choice("beta");

    let gaps = engine.infer_from_agent(&t);
    assert!(!gaps.is_empty());
}

#[test]
fn test_infer_from_agent_too_few() {
    let engine = InferenceEngine::default();
    let mut t = AvoidanceTracker::new("a1");
    t.record_avoidance("only_one");

    let gaps = engine.infer_from_agent(&t);
    assert!(gaps.is_empty());
}

#[test]
fn test_population_inference() {
    let engine = InferenceEngine::new(Fraction::new(1, 2));

    let trackers: Vec<AvoidanceTracker> = (0..5)
        .map(|i| {
            let mut t = AvoidanceTracker::new(&format!("a{i}"));
            t.record_avoidance("option_a");
            t.record_avoidance("option_z");
            t
        })
        .collect();

    let gaps = engine.infer_population(&trackers);
    assert!(!gaps.is_empty());
    // All 5 agents agree on this gap
    assert!((value(gaps[0].confidence) - 1.0).abs() < f64::EPSILON);
}

#[test]
fn inferred_label_brackets_what_differs() {
    let engine = InferenceEngine::default();
    let gap = engine.infer_between("option_a", "option_c");
    assert_eq!(gap.inferred, "option_[a\u{2194}c]");
    assert_eq!(gap.confidence, Fraction::new(7, 8));
    assert_eq!(gap.left, "option_a");
    assert_eq!(gap.right, "option_c");
}

#[test]
fn inferred_label_of_identical_labels_joins_them() {
    let engine = InferenceEngine::default();
    let gap = engine.infer_between("same", "same");
    assert_eq!(gap.inferred, "same\u{2261}same");
}

#[test]
fn inferred_label_when_one_is_a_prefix() {
    let engine = InferenceEngine::default();
    let gap = engine.infer_between("ab", "abc");
    assert_eq!(gap.inferred, "ab[\u{2194}c]");
    assert_eq!(gap.confidence, Fraction::new(2, 3));
}

#[test]
fn inferred_label_skips_prefix_bytes_for_non_ascii() {
    let engine = InferenceEngine::default();
    // common prefix "é": one character, two bytes, so two characters are skipped
    let gap = engine.infer_between("\u{e9}xy", "\u{e9}zw");
    assert_eq!(gap.inferred, "\u{e9}[y\u{2194}w]");
    let joined = engine.infer_between("\u{e9}", "\u{e9}a");
    assert_eq!(joined.inferred, "\u{e9}\u{2261}\u{e9}a");
    assert_eq!(gap.confidence, Fraction::new(1, 4));
}

#[test]
fn agent_gaps_follow_sorted_order_and_threshold() {
    let engine = InferenceEngine::new(Fraction::new(1, 2));
    let mut t = AvoidanceTracker::new("a1");
    t.record_avoidance("option_c");
    t.record_avoidance("zebra");
    t.record_avoidance("option_a");
    let gaps = engine.infer_from_agent(&t);
    assert_eq!(gaps.len(), 1);
    assert_eq!(gaps[0].left, "option_a");
    assert_eq!(gaps[0].right, "option_c");
    let all = InferenceEngine::new(Fraction::new(0, 1)).infer_from_agent(&t);
    assert_eq!(all.len(), 2);
    assert_eq!(all[1].left, "option_c");
    assert_eq!(all[1].right, "zebra");
}

#[test]
fn population_confidence_is_share_of_agents() {
    let engine = InferenceEngine::new(Fraction::new(0, 1));
    let mut t1 = AvoidanceTracker::new("a1");
    t1.record_avoidance("b");
    t1.record_avoidance("a");
    let mut t2 = AvoidanceTracker::new("a2");
    t2.record_avoidance("a");
    t2.record_avoidance("c");
    let mut t3 = AvoidanceTracker::new("a3");
    t3.record_avoidance("a");
    t3.record_avoidance("b");
    let gaps = engine.infer_population(&[t1, t2, t3]);
    assert_eq!(gaps.len(), 2);
    assert_eq!((gaps[0].left.as_str(), gaps[0].right.as_str()), ("a", "b"));
    assert_eq!(gaps[0].confidence, Fraction::new(2, 3));
    assert_eq!((gaps[1].left.as_str(), gaps[1].right.as_str()), ("a", "c"));
    assert_eq!(gaps[1].confidence, Fraction::new(1, 3));
    assert_eq!(gaps[1].inferred, "[a\u{2194}c]");
}

#[test]
fn population_confidence_is_capped_at_one() {
    let engine = InferenceEngine::new(Fraction::new(0, 1));
    let mut t = AvoidanceTracker::new("a1");
    t.record_avoidance("x");
    t.record_avoidance("x");
    t.record_avoidance("x");
    let gaps = engine.infer_population(&[t]);
    assert_eq!(gaps.len(), 1);
    assert_eq!(gaps[0].confidence, Fraction::new(1, 1));
}

#[test]
fn gaps_compare_by_content_and_clone_equal() {
    let engine = InferenceEngine::default();
    let g1 = engine.infer_between("option_a", "option_c");
    let g2 = engine.infer_between("option_a", "option_c");
    let g3 = engine.infer_between("option_a", "option_d");
    assert_eq!(g1, g2);
    assert_ne!(g1, g3);
    assert_eq!(g1.clone(), g1);
    let copy = engine;
    assert_eq!(copy.confidence_threshold, Fraction::new(3, 10));
}
