use negative_space_core::{AvoidanceTracker, BatchAnalyzer, Fraction, Ratio, AVOIDANCE_RATIO};

fn ratio_f64(r: Ratio) -> f64 {
    match r {
        Ratio::Finite(f) => f.num as f64 / f.den as f64,
        Ratio::Infinite => f64::INFINITY,
    }
}

#[test]
fn test_empty_batch() {
    let ba = BatchAnalyzer::new();
    let stats = ba.analyze();
    assert_eq!(stats.agent_count, 0);
    assert_eq!(stats.total_decisions, 0);
    assert_eq!(ratio_f64(stats.avoidance_ratio), 0.0);
}

#[test]
fn test_synthetic_population() {
    let ba = BatchAnalyzer::generate_synthetic(100, 10);
    let stats = ba.analyze();
    assert_eq!(stats.agent_count, 100);
    assert!((ratio_f64(stats.avoidance_ratio) - AVOIDANCE_RATIO as f64).abs() < 0.01);
}

#[test]
fn test_noisy_population_near_law() {
    let ba = BatchAnalyzer::generate_noisy(500, 10, 5);
    let stats = ba.analyze();
    // Should be close to 294:1 even with noise
    assert!((ratio_f64(stats.avoidance_ratio) - AVOIDANCE_RATIO as f64).abs() < 1.0);
}

#[test]
fn test_split_by_scale() {
    let ba = BatchAnalyzer::generate_synthetic(100, 5);
    let splits = ba.split_by_scale(&[10, 50, 100]);
    assert_eq!(splits.len(), 3);
    assert_eq!(splits[0].len(), 10);
    assert_eq!(splits[1].len(), 50);
    assert_eq!(splits[2].len(), 100);
}

#[test]
fn test_add_and_extend() {
    let mut ba = BatchAnalyzer::new();
    let mut t1 = AvoidanceTracker::new("a1");
    t1.record_avoidance("x");
    t1.record_choice("y");

    let mut t2 = AvoidanceTracker::new("a2");
    t2.record_avoidance("a");
    t2.record_choice("b");

    ba.add(t1);
    ba.extend(vec![t2]);
    assert_eq!(ba.len(), 2);
}

#[test]
fn synthetic_population_is_exactly_on_the_law() {
    let ba = BatchAnalyzer::generate_synthetic(20, 3);
    let stats = ba.analyze();
    assert_eq!(stats.total_avoidances, 20 * 294 * 3);
    assert_eq!(stats.total_choices, 20 * 3);
    assert_eq!(stats.total_decisions, stats.total_avoidances + stats.total_choices);
    assert_eq!(stats.avoidance_ratio, Ratio::Finite(Fraction::new(20 * 294 * 3, 20 * 3)));
    assert_eq!(stats.per_agent_ratios.len(), 20);
    for f in &stats.per_agent_ratios {
        assert_eq!(f.num, 294 * f.den);
    }
}

#[test]
fn synthetic_agents_are_named_and_labelled() {
    let ba = BatchAnalyzer::generate_synthetic(3, 1);
    let splits = ba.split_by_scale(&[3]);
    let t = &splits[0][2];
    assert_eq!(t.agent_id(), "synth_2");
    assert_eq!(t.avoidance_count(), 294);
    assert_eq!(t.choice_count(), 1);
    assert_eq!(t.avoided_labels()[0], "avoid_0");
    assert_eq!(t.avoided_labels()[293], "avoid_293");
    assert_eq!(t.chosen_labels(), vec!["choose_0"]);
}

#[test]
fn noisy_agents_follow_the_noise_pattern() {
    let ba = BatchAnalyzer::generate_noisy(7, 1, 2);
    let splits = ba.split_by_scale(&[7]);
    let avoids: Vec<usize> = splits[0].iter().map(|t| t.avoidance_count()).collect();
    // i % 5 = 0,1,2,3,4,0,1 ; saturating minus 2
    assert_eq!(avoids, vec![294, 294, 294, 295, 296, 294, 294]);
    assert_eq!(splits[0][3].agent_id(), "noisy_3");
}

#[test]
fn split_takes_all_when_scale_exceeds_batch() {
    let ba = BatchAnalyzer::generate_synthetic(4, 1);
    let splits = ba.split_by_scale(&[0, 10]);
    assert_eq!(splits[0].len(), 0);
    assert_eq!(splits[1].len(), 4);
    assert_eq!(splits[1][3].agent_id(), "synth_3");
}

#[test]
fn per_agent_ratios_skip_infinite_ones() {
    let mut ba = BatchAnalyzer::default();
    let mut t1 = AvoidanceTracker::new("a1");
    t1.record_avoidance("x");
    let mut t2 = AvoidanceTracker::new("a2");
    t2.record_avoidance("x");
    t2.record_choice("y");
    let t3 = AvoidanceTracker::new("a3");
    ba.add(t1);
    ba.add(t2);
    ba.add(t3);
    assert!(!ba.is_empty());
    let stats = ba.analyze();
    assert_eq!(stats.per_agent_ratios, vec![Fraction::new(1, 1), Fraction::new(0, 1)]);
    assert_eq!(stats.avoidance_ratio, Ratio::Finite(Fraction::new(2, 1)));
}

#[test]
fn batch_clone_and_checked_total() {
    let ba = BatchAnalyzer::generate_synthetic(2, 1);
    let copy = ba.clone();
    assert_eq!(copy.len(), 2);
    assert_eq!(copy.checked_total_decisions(), Some(2 * 295));
    let stats = copy.analyze();
    assert_eq!(stats.total_decisions, 2 * 295);
    let again = stats.clone();
    assert_eq!(again.per_agent_ratios, stats.per_agent_ratios);
    assert_eq!(again.avoidance_ratio, stats.avoidance_ratio);
}

#[test]
fn generators_build_only_the_labels_they_use() {
    // a huge noise and a huge choice count cost nothing when unused
    let ba = BatchAnalyzer::generate_noisy(1, 1, 1_000_000_000);
    assert_eq!(ba.len(), 1);
    let splits = ba.split_by_scale(&[1]);
    assert_eq!(splits[0][0].avoidance_count(), 294);
    let empty = BatchAnalyzer::generate_synthetic(0, usize::MAX);
    assert!(empty.is_empty());
    let empty = BatchAnalyzer::generate_noisy(0, usize::MAX, usize::MAX);
    assert!(empty.is_empty());
}
