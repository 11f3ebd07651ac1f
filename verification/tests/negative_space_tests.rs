use negative_space_core::{string_distance, AvoidanceTracker, Fraction, InferenceEngine, NegativeSpace};

fn value(f: Fraction) -> f64 {
    f.num as f64 / f.den as f64
}

#[test]
fn test_empty_negative_space() {
    let ns = NegativeSpace::new("agent");
    assert!(ns.avoided().is_empty());
    assert!(ns.chosen().is_empty());
    assert_eq!(value(ns.coverage()), 0.0);
}

#[test]
fn test_coverage_all_avoided() {
    let mut ns = NegativeSpace::new("agent");
    ns.add_avoided("a");
    ns.add_avoided("b");
    assert!((value(ns.coverage()) - 1.0).abs() < f64::EPSILON);
}

#[test]
fn test_coverage_mixed() {
    let mut ns = NegativeSpace::new("agent");
    ns.add_avoided("a");
    ns.add_avoided("b");
    ns.add_chosen("c");
    assert!((value(ns.coverage()) - 2.0 / 3.0).abs() < f64::EPSILON);
}

#[test]
fn test_find_gaps() {
    let mut ns = NegativeSpace::new("agent");
    ns.add_avoided("option_a");
    ns.add_avoided("option_c");
    let gaps = ns.find_gaps();
    assert_eq!(gaps.len(), 1);
    assert_eq!(gaps[0].left, "option_a");
    assert_eq!(gaps[0].right, "option_c");
    assert!(value(gaps[0].confidence) > 0.0);
}

#[test]
fn test_no_gaps_single_avoid() {
    let mut ns = NegativeSpace::new("agent");
    ns.add_avoided("only");
    let gaps = ns.find_gaps();
    assert!(gaps.is_empty());
}

#[test]
fn test_from_tracker() {
    let mut tracker = AvoidanceTracker::new("agent_42");
    tracker.record_avoidance("bad");
    tracker.record_choice("good");
    let ns = NegativeSpace::from_tracker(&tracker);
    assert_eq!(ns.avoided().len(), 1);
    assert_eq!(ns.chosen().len(), 1);
}

#[test]
fn test_string_distance() {
    assert_eq!(string_distance("abc", "abc"), 0);
    assert_eq!(string_distance("abc", "abd"), 1);
    assert_eq!(string_distance("abc", "ab"), 1);
}

#[test]
fn string_distance_is_symmetric_and_counts_characters() {
    assert_eq!(string_distance("ab", "abc"), 1);
    assert_eq!(string_distance("xyz", "a"), 2 + 1);
    // "é" is one character: same length, one differing pair
    assert_eq!(string_distance("\u{e9}", "e"), 1);
    assert_eq!(string_distance("e", "\u{e9}"), 1);
    assert_eq!(string_distance("\u{e9}\u{e9}", "\u{e9}"), 1);
}

#[test]
fn gaps_are_sorted_neighbours_with_distance_confidence() {
    let mut ns = NegativeSpace::new("agent");
    ns.add_avoided("c");
    ns.add_avoided("a");
    ns.add_avoided("abc");
    let gaps = ns.find_gaps().to_vec();
    assert_eq!(gaps.len(), 2);
    assert_eq!(gaps[0].left, "a");
    assert_eq!(gaps[0].right, "abc");
    assert_eq!(gaps[0].inferred, "a..abc");
    assert_eq!(gaps[0].confidence, Fraction::new(1, 3));
    assert_eq!(gaps[1].left, "abc");
    assert_eq!(gaps[1].right, "c");
    assert_eq!(gaps[1].confidence, Fraction::new(1, 4));
    assert_eq!(ns.gaps().len(), 2);
}

#[test]
fn identical_neighbours_have_zero_confidence() {
    let mut ns = NegativeSpace::new("agent");
    ns.add_avoided("x");
    ns.add_avoided("x");
    let gaps = ns.find_gaps();
    assert_eq!(gaps[0].confidence, Fraction::new(0, 1));
}

#[test]
fn density_is_reciprocal_of_gap_count() {
    let mut ns = NegativeSpace::new("agent");
    assert_eq!(ns.density(), Fraction::new(0, 1));
    ns.add_avoided("a");
    assert_eq!(ns.density(), Fraction::new(0, 1));
    ns.add_avoided("b");
    ns.add_avoided("c");
    assert_eq!(ns.density(), Fraction::new(1, 2));
}

#[test]
fn from_tracker_coverage_matches_tracker_share() {
    let mut tracker = AvoidanceTracker::new("agent_42");
    tracker.record_avoidance("bad");
    tracker.record_choice("good");
    tracker.record_avoidance("worse");
    let ns = NegativeSpace::from_tracker(&tracker);
    assert_eq!(ns.avoided(), &["bad".to_string(), "worse".to_string()]);
    assert_eq!(ns.chosen(), &["good".to_string()]);
    assert_eq!(ns.coverage(), Fraction::new(2, 3));
}

#[test]
fn negative_space_clone_keeps_everything() {
    let mut ns = NegativeSpace::new("agent");
    ns.add_avoided("b");
    ns.add_avoided("a");
    ns.add_chosen("c");
    ns.find_gaps();
    let copy = ns.clone();
    assert_eq!(copy.avoided(), ns.avoided());
    assert_eq!(copy.chosen(), ns.chosen());
    assert_eq!(copy.gaps(), ns.gaps());
}

#[test]
fn space_gaps_match_agent_inference_with_zero_threshold() {
    let mut t = AvoidanceTracker::new("agent");
    t.record_avoidance("delta");
    t.record_choice("x");
    t.record_avoidance("alpha");
    t.record_avoidance("charlie");
    let mut ns = NegativeSpace::from_tracker(&t);
    let mapped: Vec<(String, String)> =
        ns.find_gaps().iter().map(|g| (g.left.clone(), g.right.clone())).collect();
    let inferred: Vec<(String, String)> = InferenceEngine::new(Fraction::new(0, 1))
        .infer_from_agent(&t)
        .iter()
        .map(|g| (g.left.clone(), g.right.clone()))
        .collect();
    assert_eq!(mapped, inferred);
    assert_eq!(
        mapped,
        vec![
            ("alpha".to_string(), "charlie".to_string()),
            ("charlie".to_string(), "delta".to_string())
        ]
    );
}
