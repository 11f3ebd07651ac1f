use negative_space_core::{AvoidanceTracker, Decision, Fraction, Ratio};

fn ratio_f64(r: Ratio) -> f64 {
    match r {
        Ratio::Finite(f) => f.num as f64 / f.den as f64,
        Ratio::Infinite => f64::INFINITY,
    }
}

#[test]
fn test_empty_tracker() {
    let t = AvoidanceTracker::new("a1");
    assert_eq!(t.total_decisions(), 0);
    assert_eq!(t.avoidance_count(), 0);
    assert_eq!(t.choice_count(), 0);
    assert_eq!(ratio_f64(t.avoidance_ratio()), 0.0);
}

#[test]
fn test_only_avoids() {
    let mut t = AvoidanceTracker::new("a1");
    t.record_avoidance("x");
    t.record_avoidance("y");
    assert_eq!(ratio_f64(t.avoidance_ratio()), f64::INFINITY);
}

#[test]
fn test_exact_ratio() {
    let mut t = AvoidanceTracker::new("a1");
    for i in 0..294 {
        t.record_avoidance(&format!("avoid_{i}"));
    }
    t.record_choice("chosen");
    assert!((ratio_f64(t.avoidance_ratio()) - 294.0).abs() < f64::EPSILON);
}

#[test]
fn test_ratio_near_expected() {
    let mut t = AvoidanceTracker::new("a1");
    for i in 0..290 {
        t.record_avoidance(&format!("a{i}"));
    }
    t.record_choice("c");
    assert!(t.ratio_near_expected(Fraction::new(10, 1)));
}

#[test]
fn test_conservation_violation() {
    let mut t = AvoidanceTracker::new("a1");
    t.record_avoidance("x");
    t.record_choice("y");
    assert!(t.conservation_violation(Fraction::new(100, 1)));
}

#[test]
fn test_no_conservation_violation_with_enough_data() {
    let mut t = AvoidanceTracker::new("a1");
    for i in 0..2940 {
        t.record_avoidance(&format!("a{i}"));
    }
    for i in 0..10 {
        t.record_choice(&format!("c{i}"));
    }
    assert!(!t.conservation_violation(Fraction::new(50, 1)));
}

#[test]
fn ratio_is_exact_fraction_of_counts() {
    let mut t = AvoidanceTracker::new("a1");
    for i in 0..2940 {
        t.record_avoidance(&format!("a{i}"));
    }
    for i in 0..10 {
        t.record_choice(&format!("c{i}"));
    }
    assert_eq!(t.avoidance_ratio(), Ratio::Finite(Fraction::new(2940, 10)));
    assert_eq!(t.total_decisions(), t.avoidance_count() + t.choice_count());
}

#[test]
fn ratio_zero_with_only_choices() {
    let mut t = AvoidanceTracker::new("a1");
    t.record_choice("c");
    assert_eq!(t.avoidance_ratio(), Ratio::Finite(Fraction::new(0, 1)));
}

#[test]
fn near_expected_is_strict_and_excludes_violation() {
    let mut t = AvoidanceTracker::new("a1");
    for i in 0..284 {
        t.record_avoidance(&format!("a{i}"));
    }
    t.record_choice("c");
    // distance exactly 10: neither strictly nearer nor strictly farther
    assert!(!t.ratio_near_expected(Fraction::new(10, 1)));
    assert!(!t.conservation_violation(Fraction::new(10, 1)));
    assert!(t.ratio_near_expected(Fraction::new(21, 2)));
    assert!(t.conservation_violation(Fraction::new(19, 2)));
}

#[test]
fn infinite_ratio_is_never_judged() {
    let mut t = AvoidanceTracker::new("a1");
    t.record_avoidance("x");
    assert!(!t.ratio_near_expected(Fraction::new(1000, 1)));
    assert!(!t.conservation_violation(Fraction::new(0, 1)));
}

#[test]
fn empty_tracker_is_near_only_with_large_tolerance() {
    let t = AvoidanceTracker::new("a1");
    assert!(!t.ratio_near_expected(Fraction::new(294, 1)));
    assert!(t.ratio_near_expected(Fraction::new(295, 1)));
    assert!(t.conservation_violation(Fraction::new(293, 1)));
}

#[test]
fn labels_keep_recording_order() {
    let mut t = AvoidanceTracker::new("agent");
    t.record_avoidance("b");
    t.record_choice("x");
    t.record(Decision::Avoid("a".into()));
    t.record_choice("y");
    assert_eq!(t.agent_id(), "agent");
    assert_eq!(t.avoided_labels(), vec!["b", "a"]);
    assert_eq!(t.chosen_labels(), vec!["x", "y"]);
    assert_eq!(t.decisions().len(), 4);
    assert!(t.decisions()[2].is_avoid());
    assert_eq!(t.decisions()[2].label(), "a");
}

#[test]
fn tracker_clone_is_equal_in_content() {
    let mut t = AvoidanceTracker::new("agent");
    t.record_avoidance("b");
    t.record_choice("x");
    let c = t.clone();
    assert_eq!(c.agent_id(), "agent");
    assert_eq!(c.avoided_labels(), vec!["b"]);
    assert_eq!(c.chosen_labels(), vec!["x"]);
}

#[test]
fn ratios_compare_by_value() {
    assert_eq!(Fraction::new(1, 1), Fraction::new(2, 2));
    assert_ne!(Fraction::new(1, 2), Fraction::new(2, 2));
    assert_eq!(Ratio::Finite(Fraction::new(2940, 10)), Ratio::Finite(Fraction::new(294, 1)));
    assert_ne!(Ratio::Finite(Fraction::new(1, 1)), Ratio::Infinite);
    assert_eq!(Ratio::Infinite, Ratio::Infinite);
}

#[test]
fn finite_fractions_keep_finite_ratios_in_order() {
    let ratios = [
        Ratio::Finite(Fraction::new(3, 2)),
        Ratio::Infinite,
        Ratio::Finite(Fraction::new(0, 1)),
    ];
    let f = negative_space_core::finite_fractions(&ratios);
    assert_eq!(f.len(), 2);
    assert_eq!((f[0].num, f[0].den), (3, 2));
    assert_eq!((f[1].num, f[1].den), (0, 1));
}

#[test]
fn checked_population_decisions_sums_all_trackers() {
    let mut t1 = AvoidanceTracker::new("a1");
    t1.record_avoidance("x");
    t1.record_choice("y");
    let mut t2 = AvoidanceTracker::new("a2");
    t2.record_avoidance("z");
    assert_eq!(negative_space_core::checked_population_decisions(&[t1, t2]), Some(3));
    assert_eq!(negative_space_core::checked_population_decisions(&[]), Some(0));
}
