//! Population-level totals over many trackers, and synthetic populations.

use vstd::prelude::*;

use crate::avoidance_tracker::{count_avoids, count_chooses, lemma_log_counts, log_ratio, TrackerModel};
use crate::labels::{decimal, numbered_label};
use crate::ratio::{ratio_of, Fraction, Ratio};
use crate::{AvoidanceTracker, Decision, DecisionModel};

verus! {

/// What a list of trackers holds, tracker by tracker.
pub open spec fn models(ts: Seq<AvoidanceTracker>) -> Seq<TrackerModel> {
    ts.map_values(|t: AvoidanceTracker| t@)
}

/// Adding a tracker to a list adds its model to the list of models.
pub proof fn lemma_models_push(ts: Seq<AvoidanceTracker>, t: AvoidanceTracker)
    ensures
        models(ts.push(t)) == models(ts).push(t@),
{
    assert(models(ts.push(t)) =~= models(ts).push(t@));
}

/// Total number of decisions over a population.
pub open spec fn sum_decisions(ts: Seq<TrackerModel>) -> nat
    decreases ts.len(),
{
    if ts.len() == 0 {
        0
    } else {
        sum_decisions(ts.drop_last()) + ts.last().decisions.len()
    }
}

/// Total number of avoidances over a population.
pub open spec fn sum_avoids(ts: Seq<TrackerModel>) -> nat
    decreases ts.len(),
{
    if ts.len() == 0 {
        0
    } else {
        sum_avoids(ts.drop_last()) + count_avoids(ts.last().decisions)
    }
}

/// Total number of choices over a population.
pub open spec fn sum_chooses(ts: Seq<TrackerModel>) -> nat
    decreases ts.len(),
{
    if ts.len() == 0 {
        0
    } else {
        sum_chooses(ts.drop_last()) + count_chooses(ts.last().decisions)
    }
}

/// The avoidance ratio of a whole population: its total avoidances over its
/// total choices.
pub open spec fn population_ratio_of(ts: Seq<TrackerModel>) -> Ratio {
    ratio_of(sum_avoids(ts), sum_chooses(ts))
}

/// The finite per-agent avoidance ratios of a population, in tracker order.
pub open spec fn finite_ratios(ts: Seq<TrackerModel>) -> Seq<Fraction>
    decreases ts.len(),
{
    if ts.len() == 0 {
        Seq::empty()
    } else {
        match log_ratio(ts.last().decisions) {
            Ratio::Finite(f) => finite_ratios(ts.drop_last()).push(f),
            Ratio::Infinite => finite_ratios(ts.drop_last()),
        }
    }
}

/// The population totals split the decisions into avoidances and choices,
/// and grow with every tracker added.
pub proof fn lemma_sums(ts: Seq<TrackerModel>, i: int)
    requires
        0 <= i <= ts.len(),
    ensures
        sum_avoids(ts) + sum_chooses(ts) == sum_decisions(ts),
        sum_decisions(ts.take(i)) <= sum_decisions(ts),
    decreases ts.len(),
{
    if ts.len() > 0 {
        lemma_log_counts(ts.last().decisions);
        if i == ts.len() {
            lemma_sums(ts.drop_last(), i - 1);
            assert(ts.take(i) =~= ts);
        } else {
            lemma_sums(ts.drop_last(), i);
            assert(ts.drop_last().take(i) =~= ts.take(i));
        }
    }
}

/// Adding one tracker to a population adds its counts to the totals.
pub proof fn lemma_sums_push(ts: Seq<TrackerModel>, t: TrackerModel)
    ensures
        sum_decisions(ts.push(t)) == sum_decisions(ts) + t.decisions.len(),
        sum_avoids(ts.push(t)) == sum_avoids(ts) + count_avoids(t.decisions),
        sum_chooses(ts.push(t)) == sum_chooses(ts) + count_chooses(t.decisions),
        finite_ratios(ts.push(t)) == match log_ratio(t.decisions) {
            Ratio::Finite(f) => finite_ratios(ts).push(f),
            Ratio::Infinite => finite_ratios(ts),
        },
{
    assert(ts.push(t).drop_last() =~= ts);
}

/// Total avoidances and choices of a population of trackers.
pub fn population_totals(trackers: &[AvoidanceTracker]) -> (res: (usize, usize))
    requires
        sum_decisions(models(trackers@)) <= usize::MAX,
    ensures
        res.0 == sum_avoids(models(trackers@)),
        res.1 == sum_chooses(models(trackers@)),
{
    let ghost ms = models(trackers@);
    let mut avoids: usize = 0;
    let mut chooses: usize = 0;
    let mut i: usize = 0;
    while i < trackers.len()
        invariant
            ms == models(trackers@),
            sum_decisions(ms) <= usize::MAX,
            i <= trackers.len(),
            avoids == sum_avoids(ms.take(i as int)),
            chooses == sum_chooses(ms.take(i as int)),
        decreases trackers.len() - i,
    {
        proof {
            assert(ms.take(i + 1) =~= ms.take(i as int).push(ms[i as int]));
            lemma_sums_push(ms.take(i as int), ms[i as int]);
            lemma_sums(ms.take(i + 1), 0);
            lemma_sums(ms, i + 1);
            lemma_log_counts(ms[i as int].decisions);
        }
        let a = trackers[i].avoidance_count();
        let c = trackers[i].choice_count();
        avoids = avoids + a;
        chooses = chooses + c;
        i = i + 1;
    }
    proof {
        assert(ms.take(i as int) =~= ms);
    }
    (avoids, chooses)
}

/// The total number of decisions of a population, or `None` when it does
/// not fit in a `usize`.
pub fn checked_population_decisions(trackers: &[AvoidanceTracker]) -> (n: Option<usize>)
    ensures
        n == if sum_decisions(models(trackers@)) <= usize::MAX {
            Some(sum_decisions(models(trackers@)) as usize)
        } else {
            None::<usize>
        },
{
    let ghost ms = models(trackers@);
    let mut total: usize = 0;
    let mut i: usize = 0;
    while i < trackers.len()
        invariant
            ms == models(trackers@),
            i <= trackers@.len(),
            total == sum_decisions(ms.take(i as int)),
        decreases trackers@.len() - i,
    {
        proof {
            assert(ms.take(i + 1) =~= ms.take(i as int).push(ms[i as int]));
            lemma_sums_push(ms.take(i as int), ms[i as int]);
        }
        let n = trackers[i].total_decisions();
        match total.checked_add(n) {
            Some(t) => total = t,
            None => {
                proof {
                    lemma_sums(ms, i + 1);
                }
                return None;
            },
        }
        i = i + 1;
    }
    proof {
        assert(ms.take(i as int) =~= ms);
    }
    Some(total)
}

/// Label of the `j`-th synthetic avoidance.
pub open spec fn avoid_label(j: nat) -> Seq<char> {
    "avoid_"@ + decimal(j)
}

/// Label of the `j`-th synthetic choice.
pub open spec fn choose_label(j: nat) -> Seq<char> {
    "choose_"@ + decimal(j)
}

/// The decision log of a synthetic agent: `avoids` avoidances labelled
/// `avoid_0, avoid_1, ...`, then `chooses` choices labelled `choose_0, ...`.
pub open spec fn synthetic_log(avoids: nat, chooses: nat) -> Seq<DecisionModel> {
    Seq::new(avoids, |j: int| DecisionModel::Avoid(avoid_label(j as nat))) + Seq::new(
        chooses,
        |j: int| DecisionModel::Choose(choose_label(j as nat)),
    )
}

/// A synthetic agent named `id_prefix` followed by its index `i`.
pub open spec fn synthetic_model(id_prefix: Seq<char>, i: nat, avoids: nat, chooses: nat) -> TrackerModel {
    TrackerModel { agent_id: id_prefix + decimal(i), decisions: synthetic_log(avoids, chooses) }
}

/// Counting over a concatenation adds the counts of both parts.
pub proof fn lemma_counts_concat(s1: Seq<DecisionModel>, s2: Seq<DecisionModel>)
    ensures
        count_avoids(s1 + s2) == count_avoids(s1) + count_avoids(s2),
        count_chooses(s1 + s2) == count_chooses(s1) + count_chooses(s2),
    decreases s2.len(),
{
    if s2.len() > 0 {
        lemma_counts_concat(s1, s2.drop_last());
        assert((s1 + s2).drop_last() =~= s1 + s2.drop_last());
    }
}

/// A log of avoidances only counts each of them as an avoidance; a log of
/// choices only counts each as a choice.
pub proof fn lemma_counts_uniform(s: Seq<DecisionModel>)
    ensures
        (forall|k: int| 0 <= k < s.len() ==> (#[trigger] s[k]) is Avoid) ==> count_avoids(s)
            == s.len() && count_chooses(s) == 0,
        (forall|k: int| 0 <= k < s.len() ==> (#[trigger] s[k]) is Choose) ==> count_chooses(s)
            == s.len() && count_avoids(s) == 0,
    decreases s.len(),
{
    if s.len() > 0 {
        lemma_counts_uniform(s.drop_last());
        assert(forall|k: int| 0 <= k < s.len() - 1 ==> s.drop_last()[k] == s[k]);
    }
}

/// A synthetic agent's log counts exactly its avoidances and choices.
pub proof fn lemma_synthetic_counts(avoids: nat, chooses: nat)
    ensures
        count_avoids(synthetic_log(avoids, chooses)) == avoids,
        count_chooses(synthetic_log(avoids, chooses)) == chooses,
        synthetic_log(avoids, chooses).len() == avoids + chooses,
{
    let a = Seq::new(avoids, |j: int| DecisionModel::Avoid(avoid_label(j as nat)));
    let c = Seq::new(chooses, |j: int| DecisionModel::Choose(choose_label(j as nat)));
    lemma_counts_uniform(a);
    lemma_counts_uniform(c);
    lemma_counts_concat(a, c);
}

/// The labels `prefix0, prefix1, ..., prefix(n-1)`.
pub fn label_list(prefix: &str, n: usize) -> (v: Vec<String>)
    ensures
        v@.len() == n,
        forall|j: int| 0 <= j < n ==> (#[trigger] v@[j])@ == prefix@ + decimal(j as nat),
{
    let mut v: Vec<String> = Vec::new();
    let mut j: usize = 0;
    while j < n
        invariant
            j <= n,
            v@.len() == j,
            forall|k: int| 0 <= k < j ==> (#[trigger] v@[k])@ == prefix@ + decimal(k as nat),
        decreases n - j,
    {
        v.push(numbered_label(prefix, j));
        j = j + 1;
    }
    v
}

/// Extends the labels `prefix0, prefix1, ...` so that there are at least `n`
/// of them.
pub fn extend_label_list(labels: &mut Vec<String>, prefix: &str, n: usize)
    requires
        forall|j: int|
            0 <= j < old(labels)@.len() ==> (#[trigger] old(labels)@[j])@ == prefix@ + decimal(
                j as nat,
            ),
    ensures
        final(labels)@.len() == if old(labels)@.len() >= n {
            old(labels)@.len()
        } else {
            n as nat
        },
        forall|j: int|
            0 <= j < final(labels)@.len() ==> (#[trigger] final(labels)@[j])@ == prefix@
                + decimal(j as nat),
{
    let ghost start = labels@.len();
    while labels.len() < n
        invariant
            labels@.len() >= start,
            labels@.len() <= if start >= n {
                start
            } else {
                n as nat
            },
            forall|k: int| 0 <= k < labels@.len() ==> (#[trigger] labels@[k])@ == prefix@ + decimal(k as nat),
        decreases n - labels@.len(),
    {
        let j = labels.len();
        labels.push(numbered_label(prefix, j));
    }
}

/// A synthetic agent: `avoids` avoidances then `chooses` choices, labelled from
/// the given lists.
pub fn synthetic_tracker(
    id_prefix: &str,
    i: usize,
    avoid_labels: &Vec<String>,
    choose_labels: &Vec<String>,
    avoids: usize,
    chooses: usize,
) -> (t: AvoidanceTracker)
    requires
        avoids <= avoid_labels@.len(),
        chooses <= choose_labels@.len(),
        forall|j: int| 0 <= j < avoids ==> (#[trigger] avoid_labels@[j])@ == avoid_label(j as nat),
        forall|j: int|
            0 <= j < chooses ==> (#[trigger] choose_labels@[j])@ == choose_label(j as nat),
    ensures
        t@ == synthetic_model(id_prefix@, i as nat, avoids as nat, chooses as nat),
{
    let id = numbered_label(id_prefix, i);
    let mut t = AvoidanceTracker::new(id.as_str());
    let ghost avoid_part = Seq::new(
        avoids as nat,
        |j: int| DecisionModel::Avoid(avoid_label(j as nat)),
    );
    let ghost choose_part = Seq::new(
        chooses as nat,
        |j: int| DecisionModel::Choose(choose_label(j as nat)),
    );
    let mut j: usize = 0;
    while j < avoids
        invariant
            j <= avoids,
            avoids <= avoid_labels@.len(),
            forall|k: int|
                0 <= k < avoids ==> (#[trigger] avoid_labels@[k])@ == avoid_label(k as nat),
            avoid_part == Seq::new(avoids as nat, |k: int| DecisionModel::Avoid(avoid_label(k as nat))),
            t@.agent_id == id_prefix@ + decimal(i as nat),
            t@.decisions == avoid_part.take(j as int),
        decreases avoids - j,
    {
        t.record(Decision::Avoid(avoid_labels[j].clone()));
        proof {
            assert(avoid_part.take(j + 1) =~= avoid_part.take(j as int).push(avoid_part[j as int]));
        }
        j = j + 1;
    }
    let mut j: usize = 0;
    while j < chooses
        invariant
            j <= chooses,
            chooses <= choose_labels@.len(),
            forall|k: int|
                0 <= k < chooses ==> (#[trigger] choose_labels@[k])@ == choose_label(k as nat),
            avoid_part.len() == avoids,
            choose_part == Seq::new(
                chooses as nat,
                |k: int| DecisionModel::Choose(choose_label(k as nat)),
            ),
            t@.agent_id == id_prefix@ + decimal(i as nat),
            t@.decisions == avoid_part + choose_part.take(j as int),
        decreases chooses - j,
    {
        t.record(Decision::Choose(choose_labels[j].clone()));
        proof {
            assert(choose_part.take(j + 1) =~= choose_part.take(j as int).push(
                choose_part[j as int],
            ));
            assert(avoid_part + choose_part.take(j + 1) =~= (avoid_part + choose_part.take(
                j as int,
            )).push(choose_part[j as int]));
        }
        j = j + 1;
    }
    proof {
        assert(avoid_part.take(avoids as int) =~= avoid_part);
        assert(choose_part.take(chooses as int) =~= choose_part);
        assert(t@.decisions =~= synthetic_log(avoids as nat, chooses as nat));
    }
    t
}


/// The population ratio of a single agent is that agent's own avoidance
/// ratio.
pub proof fn law_population_of_one(t: TrackerModel)
    ensures
        population_ratio_of(seq![t]) == log_ratio(t.decisions),
        sum_decisions(seq![t]) == t.decisions.len(),
{
    let e = Seq::<TrackerModel>::empty();
    assert(seq![t] =~= e.push(t));
    lemma_sums_push(e, t);
}

/// Over any population, the total decisions are the total avoidances plus
/// the total choices.
pub proof fn law_population_totals(ts: Seq<TrackerModel>)
    ensures
        sum_avoids(ts) + sum_chooses(ts) == sum_decisions(ts),
{
    lemma_sums(ts, 0);
}

} // verus!
