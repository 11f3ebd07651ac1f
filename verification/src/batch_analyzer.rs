//! Population-level statistics over batches of agents.

use vstd::prelude::*;

use crate::avoidance_tracker::TrackerModel;
use crate::labels::decimal;
use crate::conservation_law::{lemma_uniform_finite_ratios, lemma_uniform_population};
use crate::population::{
    checked_population_decisions, extend_label_list, finite_ratios, label_list, lemma_models_push, lemma_sums, lemma_sums_push,
    lemma_synthetic_counts, models, population_ratio_of, population_totals, sum_avoids,
    sum_chooses, sum_decisions, synthetic_model, synthetic_tracker,
};
use crate::ratio::{Fraction, Ratio};
use crate::{AvoidanceTracker, AVOIDANCE_RATIO};

verus! {

/// Statistics from a batch analysis, exact in every count and ratio.
#[derive(Debug)]
pub struct BatchStatistics {
    /// Number of agents analyzed.
    pub agent_count: usize,
    /// Total decisions across all agents.
    pub total_decisions: usize,
    /// Total avoidances across all agents.
    pub total_avoidances: usize,
    /// Total choices across all agents.
    pub total_choices: usize,
    /// Population-level avoidance ratio.
    pub avoidance_ratio: Ratio,
    /// The finite per-agent avoidance ratios, in agent order.
    pub per_agent_ratios: Vec<Fraction>,
}

impl Clone for BatchStatistics {
    fn clone(&self) -> (res: Self)
        ensures
            res.agent_count == self.agent_count,
            res.total_decisions == self.total_decisions,
            res.total_avoidances == self.total_avoidances,
            res.total_choices == self.total_choices,
            res.avoidance_ratio == self.avoidance_ratio,
            res.per_agent_ratios@ == self.per_agent_ratios@,
    {
        let per_agent_ratios = self.per_agent_ratios.clone();
        proof {
            assert(per_agent_ratios@ =~= self.per_agent_ratios@);
        }
        BatchStatistics {
            agent_count: self.agent_count,
            total_decisions: self.total_decisions,
            total_avoidances: self.total_avoidances,
            total_choices: self.total_choices,
            avoidance_ratio: self.avoidance_ratio,
            per_agent_ratios,
        }
    }
}

/// Number of avoidances of the `i`-th agent of a noisy synthetic population:
/// the law's `294 * choices`, plus `(i mod (2 noise + 1)) - noise` when that
/// is positive.
pub open spec fn noisy_avoids(choices: nat, noise: nat, i: nat) -> nat {
    let r = i % (2 * noise + 1);
    (AVOIDANCE_RATIO * choices + if r > noise {
        r - noise
    } else {
        0
    }) as nat
}

/// Analyzes batches of agent decisions and computes population-level statistics.
///
/// BatchAnalyzer is the workhorse for empirical verification: feed it
/// populations, and it tells you whether the conservation law holds at scale.
#[derive(Debug)]
pub struct BatchAnalyzer {
    trackers: Vec<AvoidanceTracker>,
}

impl View for BatchAnalyzer {
    type V = Seq<TrackerModel>;

    closed spec fn view(&self) -> Seq<TrackerModel> {
        models(self.trackers@)
    }
}

impl Clone for BatchAnalyzer {
    fn clone(&self) -> (res: Self)
        ensures
            res@ == self@,
    {
        let ghost ms = self@;
        let mut trackers: Vec<AvoidanceTracker> = Vec::new();
        let mut i: usize = 0;
        while i < self.trackers.len()
            invariant
                ms == models(self.trackers@),
                i <= self.trackers@.len(),
                models(trackers@) == ms.take(i as int),
            decreases self.trackers@.len() - i,
        {
            let t = self.trackers[i].clone();
            let ghost prev = trackers@;
            trackers.push(t);
            proof {
                lemma_models_push(prev, t);
                assert(ms.take(i + 1) =~= ms.take(i as int).push(ms[i as int]));
            }
            i = i + 1;
        }
        proof {
            assert(ms.take(i as int) =~= ms);
        }
        BatchAnalyzer { trackers }
    }
}

impl Default for BatchAnalyzer {
    fn default() -> (b: Self)
        ensures
            b@ == Seq::<TrackerModel>::empty(),
    {
        Self::new()
    }
}

impl BatchAnalyzer {
    /// Create a new empty batch analyzer.
    pub fn new() -> (b: Self)
        ensures
            b@ == Seq::<TrackerModel>::empty(),
    {
        let b = BatchAnalyzer { trackers: Vec::new() };
        proof {
            assert(b@ =~= Seq::<TrackerModel>::empty());
        }
        b
    }

    /// Add a tracker to the batch.
    pub fn add(&mut self, tracker: AvoidanceTracker)
        ensures
            final(self)@ == old(self)@.push(tracker@),
    {
        self.trackers.push(tracker);
        proof {
            assert(self@ =~= old(self)@.push(tracker@));
        }
    }

    /// Add multiple trackers, in order.
    pub fn extend(&mut self, trackers: Vec<AvoidanceTracker>)
        ensures
            final(self)@ == old(self)@ + models(trackers@),
    {
        let mut trackers = trackers;
        let ghost added = trackers@;
        self.trackers.append(&mut trackers);
        proof {
            assert(self@ =~= old(self)@ + models(added));
        }
    }

    /// Number of agents in the batch.
    pub fn len(&self) -> (n: usize)
        ensures
            n == self@.len(),
    {
        self.trackers.len()
    }

    /// Check if the batch is empty.
    pub fn is_empty(&self) -> (b: bool)
        ensures
            b == (self@.len() == 0),
    {
        self.trackers.len() == 0
    }

    /// The total number of decisions in the batch, or `None` when it does
    /// not fit in a `usize` (then the batch cannot be analyzed).
    pub fn checked_total_decisions(&self) -> (n: Option<usize>)
        ensures
            n == if sum_decisions(self@) <= usize::MAX {
                Some(sum_decisions(self@) as usize)
            } else {
                None::<usize>
            },
    {
        checked_population_decisions(self.trackers.as_slice())
    }

    /// Compute statistics for the current batch.
    pub fn analyze(&self) -> (stats: BatchStatistics)
        requires
            sum_decisions(self@) <= usize::MAX,
        ensures
            stats.agent_count == self@.len(),
            stats.total_decisions == sum_decisions(self@),
            stats.total_avoidances == sum_avoids(self@),
            stats.total_choices == sum_chooses(self@),
            stats.avoidance_ratio == population_ratio_of(self@),
            stats.per_agent_ratios@ == finite_ratios(self@),
    {
        let ghost ms = self@;
        let (total_avoidances, total_choices) = population_totals(self.trackers.as_slice());
        proof {
            lemma_sums(ms, 0);
        }
        let total_decisions = total_avoidances + total_choices;
        let avoidance_ratio = Ratio::of_counts(total_avoidances as u64, total_choices as u64);
        let mut per_agent_ratios: Vec<Fraction> = Vec::new();
        let mut i: usize = 0;
        while i < self.trackers.len()
            invariant
                ms == self@,
                ms == models(self.trackers@),
                i <= self.trackers.len(),
                per_agent_ratios@ == finite_ratios(ms.take(i as int)),
            decreases self.trackers.len() - i,
        {
            proof {
                assert(ms.take(i + 1) =~= ms.take(i as int).push(ms[i as int]));
                lemma_sums_push(ms.take(i as int), ms[i as int]);
            }
            match self.trackers[i].avoidance_ratio() {
                Ratio::Finite(f) => per_agent_ratios.push(f),
                Ratio::Infinite => {},
            }
            i = i + 1;
        }
        proof {
            assert(ms.take(i as int) =~= ms);
        }
        BatchStatistics {
            agent_count: self.trackers.len(),
            total_decisions,
            total_avoidances,
            total_choices,
            avoidance_ratio,
            per_agent_ratios,
        }
    }

    /// Generate a synthetic population that conforms to the 294:1 law: agent
    /// `i` is named `synth_i` and records `294 * choices_per_agent`
    /// avoidances `avoid_0, avoid_1, ...` then `choices_per_agent` choices
    /// `choose_0, choose_1, ...`.
    pub fn generate_synthetic(agent_count: usize, choices_per_agent: usize) -> (b: Self)
        requires
            agent_count > 0 ==> AVOIDANCE_RATIO * choices_per_agent <= usize::MAX,
        ensures
            b@ == Seq::new(
                agent_count as nat,
                |i: int|
                    synthetic_model(
                        "synth_"@,
                        i as nat,
                        (AVOIDANCE_RATIO * choices_per_agent) as nat,
                        choices_per_agent as nat,
                    ),
            ),
    {
        if agent_count == 0 {
            let b = Self::new();
            proof {
                assert(b@ =~= Seq::new(
                    0,
                    |i: int|
                        synthetic_model(
                            "synth_"@,
                            i as nat,
                            (AVOIDANCE_RATIO * choices_per_agent) as nat,
                            choices_per_agent as nat,
                        ),
                ));
            }
            return b;
        }
        let avoids_per_agent: usize = 294 * choices_per_agent;
        let avoid_labels = label_list("avoid_", avoids_per_agent);
        let choose_labels = label_list("choose_", choices_per_agent);
        let ghost target = Seq::new(
            agent_count as nat,
            |i: int|
                synthetic_model(
                    "synth_"@,
                    i as nat,
                    (AVOIDANCE_RATIO * choices_per_agent) as nat,
                    choices_per_agent as nat,
                ),
        );
        let mut trackers: Vec<AvoidanceTracker> = Vec::new();
        let mut i: usize = 0;
        while i < agent_count
            invariant
                i <= agent_count,
                avoids_per_agent == AVOIDANCE_RATIO * choices_per_agent,
                avoid_labels@.len() == avoids_per_agent,
                choose_labels@.len() == choices_per_agent,
                forall|j: int|
                    0 <= j < avoids_per_agent ==> (#[trigger] avoid_labels@[j])@ == "avoid_"@
                        + decimal(j as nat),
                forall|j: int|
                    0 <= j < choices_per_agent ==> (#[trigger] choose_labels@[j])@ == "choose_"@
                        + decimal(j as nat),
                target == Seq::new(
                    agent_count as nat,
                    |i: int|
                        synthetic_model(
                            "synth_"@,
                            i as nat,
                            (AVOIDANCE_RATIO * choices_per_agent) as nat,
                            choices_per_agent as nat,
                        ),
                ),
                models(trackers@) == target.take(i as int),
            decreases agent_count - i,
        {
            let t = synthetic_tracker(
                "synth_",
                i,
                &avoid_labels,
                &choose_labels,
                avoids_per_agent,
                choices_per_agent,
            );
            let ghost prev = trackers@;
            trackers.push(t);
            proof {
                lemma_models_push(prev, t);
                assert(target.take(i + 1) =~= target.take(i as int).push(target[i as int]));
                assert(models(trackers@) =~= target.take(i + 1));
            }
            i = i + 1;
        }
        proof {
            assert(target.take(i as int) =~= target);
        }
        BatchAnalyzer { trackers }
    }

    /// Generate a synthetic population with noise around the 294:1 ratio:
    /// agent `i` is named `noisy_i` and records `noisy_avoids(..)` avoidances
    /// then `choices_per_agent` choices.
    pub fn generate_noisy(agent_count: usize, choices_per_agent: usize, noise: usize) -> (b: Self)
        requires
            agent_count > 0 ==> 2 * noise + 1 <= usize::MAX,
            forall|i: nat|
                i < agent_count ==> #[trigger] noisy_avoids(
                    choices_per_agent as nat,
                    noise as nat,
                    i,
                ) <= usize::MAX,
        ensures
            b@ == Seq::new(
                agent_count as nat,
                |i: int|
                    synthetic_model(
                        "noisy_"@,
                        i as nat,
                        noisy_avoids(choices_per_agent as nat, noise as nat, i as nat),
                        choices_per_agent as nat,
                    ),
            ),
    {
        let ghost target = Seq::new(
            agent_count as nat,
            |i: int|
                synthetic_model(
                    "noisy_"@,
                    i as nat,
                    noisy_avoids(choices_per_agent as nat, noise as nat, i as nat),
                    choices_per_agent as nat,
                ),
        );
        if agent_count == 0 {
            let b = Self::new();
            proof {
                assert(b@ =~= target);
            }
            return b;
        }
        assert(noisy_avoids(choices_per_agent as nat, noise as nat, 0) <= usize::MAX);
        let base_avoids: usize = 294 * choices_per_agent;
        let mut avoid_labels: Vec<String> = Vec::new();
        let choose_labels = label_list("choose_", choices_per_agent);
        let mut trackers: Vec<AvoidanceTracker> = Vec::new();
        let mut i: usize = 0;
        while i < agent_count
            invariant
                i <= agent_count,
                2 * noise + 1 <= usize::MAX,
                base_avoids == AVOIDANCE_RATIO * choices_per_agent,
                forall|i: nat|
                    i < agent_count ==> #[trigger] noisy_avoids(
                        choices_per_agent as nat,
                        noise as nat,
                        i,
                    ) <= usize::MAX,
                choose_labels@.len() == choices_per_agent,
                forall|j: int|
                    0 <= j < avoid_labels@.len() ==> (#[trigger] avoid_labels@[j])@ == "avoid_"@
                        + decimal(j as nat),
                forall|j: int|
                    0 <= j < choices_per_agent ==> (#[trigger] choose_labels@[j])@ == "choose_"@
                        + decimal(j as nat),
                target == Seq::new(
                    agent_count as nat,
                    |i: int|
                        synthetic_model(
                            "noisy_"@,
                            i as nat,
                            noisy_avoids(choices_per_agent as nat, noise as nat, i as nat),
                            choices_per_agent as nat,
                        ),
                ),
                models(trackers@) == target.take(i as int),
            decreases agent_count - i,
        {
            let extra = (i % (2 * noise + 1)).saturating_sub(noise);
            assert(base_avoids + extra == noisy_avoids(
                choices_per_agent as nat,
                noise as nat,
                i as nat,
            ));
            let avoids = base_avoids + extra;
            extend_label_list(&mut avoid_labels, "avoid_", avoids);
            let t = synthetic_tracker(
                "noisy_",
                i,
                &avoid_labels,
                &choose_labels,
                avoids,
                choices_per_agent,
            );
            let ghost prev = trackers@;
            trackers.push(t);
            proof {
                lemma_models_push(prev, t);
                assert(target.take(i + 1) =~= target.take(i as int).push(target[i as int]));
                assert(avoids == noisy_avoids(choices_per_agent as nat, noise as nat, i as nat));
                assert(models(trackers@) =~= target.take(i + 1));
            }
            i = i + 1;
        }
        proof {
            assert(target.take(i as int) =~= target);
        }
        BatchAnalyzer { trackers }
    }

    /// Split the batch into sub-populations by size: the `k`-th holds copies
    /// of the first `scales[k]` trackers (all of them if there are fewer).
    pub fn split_by_scale(&self, scales: &[usize]) -> (splits: Vec<Vec<AvoidanceTracker>>)
        ensures
            splits@.len() == scales@.len(),
            forall|k: int|
                0 <= k < scales@.len() ==> models((#[trigger] splits@[k])@) == self@.take(
                    if scales@[k] < self@.len() {
                        scales@[k] as int
                    } else {
                        self@.len() as int
                    },
                ),
    {
        let ghost ms = self@;
        let mut splits: Vec<Vec<AvoidanceTracker>> = Vec::new();
        let mut k: usize = 0;
        while k < scales.len()
            invariant
                ms == self@,
                ms == models(self.trackers@),
                k <= scales@.len(),
                splits@.len() == k,
                forall|m: int|
                    0 <= m < k ==> models((#[trigger] splits@[m])@) == ms.take(
                        if scales@[m] < ms.len() {
                            scales@[m] as int
                        } else {
                            ms.len() as int
                        },
                    ),
            decreases scales@.len() - k,
        {
            let size = scales[k];
            let n = if size < self.trackers.len() {
                size
            } else {
                self.trackers.len()
            };
            let mut part: Vec<AvoidanceTracker> = Vec::new();
            let mut i: usize = 0;
            while i < n
                invariant
                    ms == models(self.trackers@),
                    n <= self.trackers.len(),
                    i <= n,
                    models(part@) == ms.take(i as int),
                decreases n - i,
            {
                let t = self.trackers[i].clone();
                let ghost prev = part@;
                part.push(t);
                proof {
                    lemma_models_push(prev, t);
                    assert(ms.take(i + 1) =~= ms.take(i as int).push(ms[i as int]));
                    assert(models(part@) =~= ms.take(i + 1));
                }
                i = i + 1;
            }
            splits.push(part);
            proof {
                assert(models(splits@[k as int]@) == ms.take(n as int));
            }
            k = k + 1;
        }
        splits
    }
}

/// A population of synthetic agents whose avoidances all lie between `lo` and
/// `hi`, each with `c` choices, totals between `n * lo` and `n * hi`
/// avoidances and exactly `n * c` choices.
pub proof fn lemma_bounded_population(
    prefix: Seq<char>,
    n: nat,
    avoids: spec_fn(nat) -> nat,
    lo: nat,
    hi: nat,
    c: nat,
)
    requires
        forall|i: nat| i < n ==> lo <= #[trigger] avoids(i) <= hi,
    ensures
        ({
            let ts = Seq::new(n, |i: int| synthetic_model(prefix, i as nat, avoids(i as nat), c));
            &&& n * lo <= sum_avoids(ts) <= n * hi
            &&& sum_chooses(ts) == n * c
        }),
    decreases n,
{
    if n > 0 {
        let ts = Seq::new(n, |i: int| synthetic_model(prefix, i as nat, avoids(i as nat), c));
        let prev = Seq::new(
            (n - 1) as nat,
            |i: int| synthetic_model(prefix, i as nat, avoids(i as nat), c),
        );
        lemma_bounded_population(prefix, (n - 1) as nat, avoids, lo, hi, c);
        assert(ts.drop_last() =~= prev);
        lemma_synthetic_counts(avoids((n - 1) as nat), c);
        let x = avoids((n - 1) as nat);
        assert((n - 1) * lo + lo == n * lo && (n - 1) * hi + hi == n * hi && (n - 1) * c + c == n
            * c) by (nonlinear_arith);
    }
}

/// The synthetic population conforms to the 294:1 law: with at least one
/// agent and at least one choice per agent, the population's avoidance ratio
/// is exactly 294:1, and so is every agent's, so that the per-agent ratios do
/// not spread at all.
pub proof fn law_synthetic_conforms(n: nat, c: nat)
    requires
        n > 0,
        c > 0,
        n * (AVOIDANCE_RATIO * c + c) <= usize::MAX,
    ensures
        ({
            let ts = Seq::new(
                n,
                |i: int| synthetic_model("synth_"@, i as nat, (AVOIDANCE_RATIO * c) as nat, c),
            );
            &&& population_ratio_of(ts) matches Ratio::Finite(f) && f.num == AVOIDANCE_RATIO
                * f.den && f.den > 0
            &&& finite_ratios(ts).len() == n
            &&& forall|k: int|
                0 <= k < n ==> (#[trigger] finite_ratios(ts)[k]).num == AVOIDANCE_RATIO
                    * finite_ratios(ts)[k].den && finite_ratios(ts)[k].den > 0
        }),
{
    let a = (AVOIDANCE_RATIO * c) as nat;
    assert(a + c <= n * (a + c) && n * a + n * c == n * (a + c) && n * a == 294 * (n * c) && n
        * c > 0) by (nonlinear_arith)
        requires
            n > 0,
            c > 0,
            a == 294 * c,
    ;
    lemma_uniform_population("synth_"@, n, a, c);
    lemma_uniform_finite_ratios("synth_"@, n, a, c);
}

/// Noise stays near the law: in the noisy synthetic population, with at
/// least one agent and at least one choice per agent, the population's
/// avoidance ratio lies between 294 and `294 + noise / choices`.
pub proof fn law_noisy_near_law(n: nat, c: nat, noise: nat)
    requires
        n > 0,
        c > 0,
        n * (AVOIDANCE_RATIO * c + noise + c) <= usize::MAX,
    ensures
        ({
            let ts = Seq::new(
                n,
                |i: int| synthetic_model("noisy_"@, i as nat, noisy_avoids(c, noise, i as nat), c),
            );
            population_ratio_of(ts) matches Ratio::Finite(f) && f.den > 0 && AVOIDANCE_RATIO
                * f.den <= f.num && f.num * c <= (AVOIDANCE_RATIO * c + noise) * f.den
        }),
{
    let lo = (AVOIDANCE_RATIO * c) as nat;
    let hi = (AVOIDANCE_RATIO * c + noise) as nat;
    let avoids = |i: nat| noisy_avoids(c, noise, i);
    assert forall|i: nat| i < n implies lo <= #[trigger] avoids(i) <= hi by {
        let r = i % (2 * noise + 1);
        assert(r < 2 * noise + 1);
    }
    lemma_bounded_population("noisy_"@, n, avoids, lo, hi, c);
    let ts = Seq::new(
        n,
        |i: int| synthetic_model("noisy_"@, i as nat, noisy_avoids(c, noise, i as nat), c),
    );
    assert(ts =~= Seq::new(n, |i: int| synthetic_model("noisy_"@, i as nat, avoids(i as nat), c)));
    let sa = sum_avoids(ts);
    assert(n * hi + n * c <= n * (AVOIDANCE_RATIO * c + noise + c)) by (nonlinear_arith)
        requires
            hi == AVOIDANCE_RATIO * c + noise,
    ;
    assert(AVOIDANCE_RATIO * (n * c) <= sa && sa * c <= hi * (n * c) && n * c > 0)
        by (nonlinear_arith)
        requires
            n * lo <= sa <= n * hi,
            lo == AVOIDANCE_RATIO * c,
            n > 0,
            c > 0,
    ;
}

} // verus!
