use negative_space_core::{AvoidanceTracker, ConservationLaw, Fraction, Ratio};

#[test]
fn test_population_ratio_basic() {
    let mut t1 = AvoidanceTracker::new("a1");
    t1.record_avoidance("x");
    t1.record_choice("y");
    let ratio = ConservationLaw::population_ratio(&[t1]);
    let value = match ratio {
        Ratio::Finite(f) => f.num as f64 / f.den as f64,
        Ratio::Infinite => f64::INFINITY,
    };
    assert!((value - 1.0).abs() < f64::EPSILON);
}

#[test]
fn test_conservation_law_default() {
    let law = ConservationLaw::default();
    assert_eq!(law.scales, vec![10, 100, 1000, 5000]);
    assert!(law.threshold.num > 0 && law.threshold.den > 0);
}

#[test]
fn population_ratio_of_one_agent_is_its_ratio() {
    let mut t = AvoidanceTracker::new("a1");
    t.record_avoidance("x");
    t.record_avoidance("y");
    t.record_choice("z");
    let expected = t.avoidance_ratio();
    assert_eq!(ConservationLaw::population_ratio(&[t]), expected);
}

#[test]
fn population_ratio_infinite_without_choices() {
    let mut t = AvoidanceTracker::new("a1");
    t.record_avoidance("x");
    assert_eq!(ConservationLaw::population_ratio(&[t]), Ratio::Infinite);
    assert_eq!(ConservationLaw::population_ratio(&[]), Ratio::Finite(Fraction::new(0, 1)));
}

#[test]
fn synthetic_ratio_is_the_same_at_every_scale() {
    let law = ConservationLaw::new(vec![1, 3, 7], Fraction::new(1, 100));
    let pops = law.synthetic_populations();
    assert_eq!(pops.len(), 3);
    assert_eq!(pops[2].len(), 7);
    assert_eq!(pops[2][6].agent_id(), "agent_6");
    let m = ConservationLaw::measure(&pops);
    assert_eq!(m.scales, vec![1, 3, 7]);
    for (r, n) in m.ratios.iter().zip([1u64, 3, 7]) {
        assert_eq!(*r, Ratio::Finite(Fraction::new(2940 * n, 10 * n)));
    }
}

#[test]
fn measure_reports_broken_conservation() {
    let pop1: Vec<AvoidanceTracker> = (0..10)
        .map(|i| {
            let mut t = AvoidanceTracker::new(&format!("a1_{i}"));
            t.record_avoidance("x");
            t.record_choice("y");
            t
        })
        .collect();
    let pop2: Vec<AvoidanceTracker> = (0..10)
        .map(|i| {
            let mut t = AvoidanceTracker::new(&format!("a2_{i}"));
            for j in 0..294 {
                t.record_avoidance(&format!("a{j}"));
            }
            t.record_choice("c");
            t
        })
        .collect();
    let m = ConservationLaw::measure(&[pop1, pop2]);
    assert_eq!(m.ratios[0], Ratio::Finite(Fraction::new(10, 10)));
    assert_eq!(m.ratios[1], Ratio::Finite(Fraction::new(2940, 10)));
}

#[test]
fn conservation_law_clone_keeps_configuration() {
    let law = ConservationLaw::new(vec![3, 4], Fraction::new(1, 10));
    let copy = law.clone();
    assert_eq!(copy.scales, vec![3, 4]);
    assert_eq!(copy.threshold, Fraction::new(1, 10));
}

#[test]
fn test_conservation_across_all_scales() {
    let law = ConservationLaw::default();
    let pops = law.synthetic_populations();
    let result = ConservationLaw::measure(&pops);
    // Verify each scale has ratio near 294
    for ratio in &result.ratios {
        let value = match ratio {
            Ratio::Finite(f) => f.num as f64 / f.den as f64,
            Ratio::Infinite => f64::INFINITY,
        };
        assert!((value - 294.0).abs() < 0.01);
    }
}
