//! The Conservation of Avoidance Ratio across population scales.

use vstd::prelude::*;

use crate::avoidance_tracker::{log_ratio, TrackerModel};
use crate::population::{
    finite_ratios, label_list, lemma_models_push, lemma_synthetic_counts, models,
    population_ratio_of, population_totals, sum_avoids, sum_chooses, sum_decisions,
    synthetic_model, synthetic_tracker,
};
use crate::ratio::{Fraction, Ratio};
use crate::{
    conservation_threshold, AvoidanceTracker, AVOIDANCE_RATIO, CONSERVATION_THRESHOLD_DEN,
    CONSERVATION_THRESHOLD_NUM,
};

verus! {

/// Avoidances of each agent of the built-in synthetic populations.
pub const SYNTHETIC_AVOIDS: usize = 2940;

/// Choices of each agent of the built-in synthetic populations.
pub const SYNTHETIC_CHOICES: usize = 10;

/// The population sizes and the avoidance ratio observed at each.
#[derive(Debug)]
pub struct ScaleRatios {
    /// The population sizes measured.
    pub scales: Vec<usize>,
    /// The avoidance ratio of the population at each scale.
    pub ratios: Vec<Ratio>,
}

/// Verifies the Conservation of Avoidance Ratio across population scales.
///
/// The conservation law states: the avoidance ratio is invariant regardless
/// of the number of agents observed. Whether 10 agents or 5,000, the ratio
/// stays at approximately 294:1 with standard deviation below the threshold.
#[derive(Debug)]
pub struct ConservationLaw {
    /// The population sizes at which to verify conservation.
    pub scales: Vec<usize>,
    /// Maximum acceptable standard deviation.
    pub threshold: Fraction,
}

impl Clone for ConservationLaw {
    fn clone(&self) -> (res: Self)
        ensures
            res.scales@ == self.scales@,
            res.threshold == self.threshold,
    {
        let scales = self.scales.clone();
        proof {
            assert(scales@ =~= self.scales@);
        }
        ConservationLaw { scales, threshold: self.threshold }
    }
}

impl Default for ConservationLaw {
    fn default() -> (law: Self)
        ensures
            law.scales@ == seq![10usize, 100, 1000, 5000],
            law.threshold == (Fraction { num: CONSERVATION_THRESHOLD_NUM, den: CONSERVATION_THRESHOLD_DEN }),
    {
        let mut scales: Vec<usize> = Vec::new();
        scales.push(10);
        scales.push(100);
        scales.push(1000);
        scales.push(5000);
        let law = ConservationLaw { scales, threshold: conservation_threshold() };
        proof {
            assert(law.scales@ =~= seq![10usize, 100, 1000, 5000]);
        }
        law
    }
}

/// The built-in synthetic population of size `n`: agents named `agent_i`, each
/// with 2940 avoidances and 10 choices.
pub open spec fn synthetic_population(n: nat) -> Seq<TrackerModel> {
    Seq::new(
        n,
        |i: int|
            synthetic_model("agent_"@, i as nat, SYNTHETIC_AVOIDS as nat, SYNTHETIC_CHOICES as nat),
    )
}

impl ConservationLaw {
    /// Create a conservation law checker with custom scales.
    pub fn new(scales: Vec<usize>, threshold: Fraction) -> (law: Self)
        ensures
            law.scales@ == scales@,
            law.threshold == threshold,
    {
        ConservationLaw { scales, threshold }
    }

    /// Compute the avoidance ratio for a population of trackers: total
    /// avoidances over total choices.
    pub fn population_ratio(trackers: &[AvoidanceTracker]) -> (r: Ratio)
        requires
            sum_decisions(models(trackers@)) <= usize::MAX,
        ensures
            r == population_ratio_of(models(trackers@)),
            r.wf(),
    {
        let (avoids, chooses) = population_totals(trackers);
        Ratio::of_counts(avoids as u64, chooses as u64)
    }

    /// The size and avoidance ratio of each population, in order.
    pub fn measure(populations: &[Vec<AvoidanceTracker>]) -> (m: ScaleRatios)
        requires
            forall|k: int|
                0 <= k < populations@.len() ==> sum_decisions(models((#[trigger] populations@[k])@))
                    <= usize::MAX,
        ensures
            m.scales@.len() == populations@.len(),
            m.ratios@.len() == populations@.len(),
            forall|k: int|
                0 <= k < populations@.len() ==> {
                    &&& m.scales@[k] == (#[trigger] populations@[k])@.len()
                    &&& m.ratios@[k] == population_ratio_of(models(populations@[k]@))
                },
    {
        let mut scales: Vec<usize> = Vec::new();
        let mut ratios: Vec<Ratio> = Vec::new();
        let mut k: usize = 0;
        while k < populations.len()
            invariant
                k <= populations@.len(),
                forall|k: int|
                    0 <= k < populations@.len() ==> sum_decisions(
                        models((#[trigger] populations@[k])@),
                    ) <= usize::MAX,
                scales@.len() == k,
                ratios@.len() == k,
                forall|m: int|
                    0 <= m < k ==> {
                        &&& scales@[m] == (#[trigger] populations@[m])@.len()
                        &&& ratios@[m] == population_ratio_of(models(populations@[m]@))
                    },
            decreases populations@.len() - k,
        {
            let pop = &populations[k];
            scales.push(pop.len());
            ratios.push(Self::population_ratio(pop.as_slice()));
            k = k + 1;
        }
        ScaleRatios { scales, ratios }
    }

    /// The synthetic populations at the configured scales: at scale `n`, `n`
    /// agents `agent_0, agent_1, ...`, each recording 2940 avoidances and 10
    /// choices (294 avoidances per choice).
    pub fn synthetic_populations(&self) -> (pops: Vec<Vec<AvoidanceTracker>>)
        ensures
            pops@.len() == self.scales@.len(),
            forall|k: int|
                0 <= k < self.scales@.len() ==> models((#[trigger] pops@[k])@)
                    == synthetic_population(self.scales@[k] as nat),
    {
        let avoid_labels = label_list("avoid_", SYNTHETIC_AVOIDS);
        let choose_labels = label_list("choose_", SYNTHETIC_CHOICES);
        let mut pops: Vec<Vec<AvoidanceTracker>> = Vec::new();
        let mut k: usize = 0;
        while k < self.scales.len()
            invariant
                k <= self.scales@.len(),
                pops@.len() == k,
                avoid_labels@.len() == SYNTHETIC_AVOIDS,
                choose_labels@.len() == SYNTHETIC_CHOICES,
                forall|j: int|
                    0 <= j < SYNTHETIC_AVOIDS ==> (#[trigger] avoid_labels@[j])@ == "avoid_"@
                        + crate::labels::decimal(j as nat),
                forall|j: int|
                    0 <= j < SYNTHETIC_CHOICES ==> (#[trigger] choose_labels@[j])@ == "choose_"@
                        + crate::labels::decimal(j as nat),
                forall|m: int|
                    0 <= m < k ==> models((#[trigger] pops@[m])@) == synthetic_population(
                        self.scales@[m] as nat,
                    ),
            decreases self.scales@.len() - k,
        {
            let n = self.scales[k];
            let ghost target = synthetic_population(n as nat);
            let mut pop: Vec<AvoidanceTracker> = Vec::new();
            let mut i: usize = 0;
            while i < n
                invariant
                    i <= n,
                    target == synthetic_population(n as nat),
                    avoid_labels@.len() == SYNTHETIC_AVOIDS,
                    choose_labels@.len() == SYNTHETIC_CHOICES,
                    forall|j: int|
                        0 <= j < SYNTHETIC_AVOIDS ==> (#[trigger] avoid_labels@[j])@ == "avoid_"@
                            + crate::labels::decimal(j as nat),
                    forall|j: int|
                        0 <= j < SYNTHETIC_CHOICES ==> (#[trigger] choose_labels@[j])@
                            == "choose_"@ + crate::labels::decimal(j as nat),
                    models(pop@) == target.take(i as int),
                decreases n - i,
            {
                let t = synthetic_tracker(
                    "agent_",
                    i,
                    &avoid_labels,
                    &choose_labels,
                    SYNTHETIC_AVOIDS,
                    SYNTHETIC_CHOICES,
                );
                let ghost prev = pop@;
                pop.push(t);
                proof {
                    lemma_models_push(prev, t);
                    assert(target.take(i + 1) =~= target.take(i as int).push(target[i as int]));
                }
                i = i + 1;
            }
            proof {
                assert(target.take(i as int) =~= target);
            }
            pops.push(pop);
            k = k + 1;
        }
        pops
    }
}

/// A population of `n` identical synthetic agents, each with `a` avoidances
/// and `c` choices, totals `n * a` avoidances and `n * c` choices, and each of
/// its agents has the ratio `a / c`.
pub proof fn lemma_uniform_population(prefix: Seq<char>, n: nat, a: nat, c: nat)
    ensures
        ({
            let ts = Seq::new(n, |i: int| synthetic_model(prefix, i as nat, a, c));
            &&& sum_avoids(ts) == n * a
            &&& sum_chooses(ts) == n * c
            &&& sum_decisions(ts) == n * (a + c)
            &&& forall|i: int| 0 <= i < n ==> log_ratio(#[trigger] ts[i].decisions) == log_ratio(
                crate::population::synthetic_log(a, c),
            )
        }),
    decreases n,
{
    let ts = Seq::new(n, |i: int| synthetic_model(prefix, i as nat, a, c));
    lemma_synthetic_counts(a, c);
    if n > 0 {
        let prev = Seq::new((n - 1) as nat, |i: int| synthetic_model(prefix, i as nat, a, c));
        lemma_uniform_population(prefix, (n - 1) as nat, a, c);
        assert(ts.drop_last() =~= prev);
        assert((n - 1) * a + a == n * a) by (nonlinear_arith);
        assert((n - 1) * c + c == n * c) by (nonlinear_arith);
        assert((n - 1) * (a + c) + (a + c) == n * (a + c)) by (nonlinear_arith);
    }
}

/// In a population of identical synthetic agents with at least one choice
/// each, the finite per-agent ratios are exactly those of its agents.
pub proof fn lemma_uniform_finite_ratios(prefix: Seq<char>, n: nat, a: nat, c: nat)
    requires
        c > 0,
        a <= u64::MAX,
        c <= u64::MAX,
    ensures
        ({
            let ts = Seq::new(n, |i: int| synthetic_model(prefix, i as nat, a, c));
            finite_ratios(ts) == Seq::new(n, |i: int| Fraction { num: a as u64, den: c as u64 })
        }),
    decreases n,
{
    let ts = Seq::new(n, |i: int| synthetic_model(prefix, i as nat, a, c));
    lemma_synthetic_counts(a, c);
    if n > 0 {
        let prev = Seq::new((n - 1) as nat, |i: int| synthetic_model(prefix, i as nat, a, c));
        lemma_uniform_finite_ratios(prefix, (n - 1) as nat, a, c);
        assert(ts.drop_last() =~= prev);
        assert(finite_ratios(ts) =~= Seq::new(
            n,
            |i: int| Fraction { num: a as u64, den: c as u64 },
        ));
    }
}

/// Conservation of the avoidance ratio on the built-in synthetic
/// populations: at every scale of at least one agent, the population's
/// avoidance ratio is exactly 294:1, so it is the same at every scale.
pub proof fn law_synthetic_ratio_conserved(n: nat)
    requires
        n > 0,
        n * (SYNTHETIC_AVOIDS + SYNTHETIC_CHOICES) <= usize::MAX,
    ensures
        population_ratio_of(synthetic_population(n)) matches Ratio::Finite(f) && f.num == AVOIDANCE_RATIO
            * f.den && f.den > 0,
{
    lemma_uniform_population(
        "agent_"@,
        n,
        SYNTHETIC_AVOIDS as nat,
        SYNTHETIC_CHOICES as nat,
    );
    assert(synthetic_population(n) =~= Seq::new(
        n,
        |i: int|
            synthetic_model("agent_"@, i as nat, SYNTHETIC_AVOIDS as nat, SYNTHETIC_CHOICES as nat),
    ));
    assert(n * 2940 + n * 10 == n * 2950 && n * 2940 == 294 * (n * 10) && n * 10 > 0)
        by (nonlinear_arith)
        requires
            n > 0,
    ;
}

} // verus!
