//! Per-agent decision log and the avoidance ratio computed from it.

use vstd::prelude::*;

use crate::ratio::{ratio_beyond, ratio_of, ratio_within, Fraction, Ratio};
use crate::{Decision, DecisionModel, AVOIDANCE_RATIO};

verus! {

/// Number of avoidances in a decision log.
pub open spec fn count_avoids(s: Seq<DecisionModel>) -> nat
    decreases s.len(),
{
    if s.len() == 0 {
        0
    } else {
        count_avoids(s.drop_last()) + if s.last() is Avoid {
            1nat
        } else {
            0nat
        }
    }
}

/// Number of choices in a decision log.
pub open spec fn count_chooses(s: Seq<DecisionModel>) -> nat
    decreases s.len(),
{
    if s.len() == 0 {
        0
    } else {
        count_chooses(s.drop_last()) + if s.last() is Choose {
            1nat
        } else {
            0nat
        }
    }
}

/// Labels of the avoidances of a decision log, in the order recorded.
pub open spec fn avoided_labels_of(s: Seq<DecisionModel>) -> Seq<Seq<char>>
    decreases s.len(),
{
    if s.len() == 0 {
        Seq::empty()
    } else if s.last() is Avoid {
        avoided_labels_of(s.drop_last()).push(s.last().label())
    } else {
        avoided_labels_of(s.drop_last())
    }
}

/// Labels of the choices of a decision log, in the order recorded.
pub open spec fn chosen_labels_of(s: Seq<DecisionModel>) -> Seq<Seq<char>>
    decreases s.len(),
{
    if s.len() == 0 {
        Seq::empty()
    } else if s.last() is Choose {
        chosen_labels_of(s.drop_last()).push(s.last().label())
    } else {
        chosen_labels_of(s.drop_last())
    }
}

/// The avoidance ratio of a decision log.
pub open spec fn log_ratio(s: Seq<DecisionModel>) -> Ratio {
    ratio_of(count_avoids(s), count_chooses(s))
}

/// Every decision is an avoidance or a choice, and the label lists count them.
pub proof fn lemma_log_counts(s: Seq<DecisionModel>)
    ensures
        count_avoids(s) + count_chooses(s) == s.len(),
        avoided_labels_of(s).len() == count_avoids(s),
        chosen_labels_of(s).len() == count_chooses(s),
    decreases s.len(),
{
    if s.len() > 0 {
        lemma_log_counts(s.drop_last());
    }
}

/// Appending a decision to a log extends the counts and label lists by it.
pub proof fn lemma_log_push(s: Seq<DecisionModel>, d: DecisionModel)
    ensures
        count_avoids(s.push(d)) == count_avoids(s) + if d is Avoid {
            1nat
        } else {
            0nat
        },
        count_chooses(s.push(d)) == count_chooses(s) + if d is Choose {
            1nat
        } else {
            0nat
        },
        avoided_labels_of(s.push(d)) == if d is Avoid {
            avoided_labels_of(s).push(d.label())
        } else {
            avoided_labels_of(s)
        },
        chosen_labels_of(s.push(d)) == if d is Choose {
            chosen_labels_of(s).push(d.label())
        } else {
            chosen_labels_of(s)
        },
{
    assert(s.push(d).drop_last() =~= s);
}

/// What a tracker holds: the agent's identity and its decisions in order.
pub struct TrackerModel {
    pub agent_id: Seq<char>,
    pub decisions: Seq<DecisionModel>,
}

/// Tracks per-agent avoidance history and computes avoidance ratios.
///
/// The avoidance ratio is the fundamental metric: how many options does an
/// agent avoid for each one it chooses? Empirically this converges to ~294:1.
#[derive(Debug)]
pub struct AvoidanceTracker {
    agent_id: String,
    decisions: Vec<Decision>,
}

impl View for AvoidanceTracker {
    type V = TrackerModel;

    closed spec fn view(&self) -> TrackerModel {
        TrackerModel {
            agent_id: self.agent_id@,
            decisions: decision_models(self.decisions@),
        }
    }
}

/// What a list of decisions means, decision by decision.
pub open spec fn decision_models(v: Seq<Decision>) -> Seq<DecisionModel> {
    v.map_values(|d: Decision| d@)
}

/// A copy of a list of decisions with the same meaning.
pub fn clone_decisions(v: &Vec<Decision>) -> (res: Vec<Decision>)
    ensures
        decision_models(res@) == decision_models(v@),
{
    let mut res: Vec<Decision> = Vec::new();
    let mut i: usize = 0;
    while i < v.len()
        invariant
            i <= v.len(),
            decision_models(res@) == decision_models(v@.take(i as int)),
        decreases v.len() - i,
    {
        let d = v[i].clone();
        let ghost prev = res@;
        res.push(d);
        proof {
            assert(decision_models(res@) =~= decision_models(prev).push(d@));
            assert(decision_models(v@.take(i + 1)) =~= decision_models(v@.take(i as int)).push(
                v@[i as int]@,
            ));
        }
        i = i + 1;
    }
    proof {
        assert(v@.take(v.len() as int) =~= v@);
    }
    res
}

impl Clone for AvoidanceTracker {
    fn clone(&self) -> (res: Self)
        ensures
            res@ == self@,
    {
        AvoidanceTracker { agent_id: self.agent_id.clone(), decisions: clone_decisions(&self.decisions) }
    }
}

impl AvoidanceTracker {
    /// The avoidance ratio of this tracker's decisions.
    pub open spec fn ratio_spec(&self) -> Ratio {
        log_ratio(self@.decisions)
    }

    /// Create a new tracker for the given agent.
    pub fn new(agent_id: &str) -> (t: Self)
        ensures
            t@.agent_id == agent_id@,
            t@.decisions == Seq::<DecisionModel>::empty(),
    {
        let t = AvoidanceTracker { agent_id: agent_id.to_owned(), decisions: Vec::new() };
        proof {
            assert(t@.decisions =~= Seq::<DecisionModel>::empty());
        }
        t
    }

    /// Get the agent's ID.
    pub fn agent_id(&self) -> (id: &str)
        ensures
            id@ == self@.agent_id,
    {
        self.agent_id.as_str()
    }

    /// Record a raw decision.
    pub fn record(&mut self, decision: Decision)
        ensures
            final(self)@.agent_id == old(self)@.agent_id,
            final(self)@.decisions == old(self)@.decisions.push(decision@),
    {
        self.decisions.push(decision);
        proof {
            assert(self@.decisions =~= old(self)@.decisions.push(decision@));
        }
    }

    /// Record that the agent avoided an option.
    pub fn record_avoidance(&mut self, label: &str)
        ensures
            final(self)@.agent_id == old(self)@.agent_id,
            final(self)@.decisions == old(self)@.decisions.push(DecisionModel::Avoid(label@)),
    {
        self.record(Decision::Avoid(label.to_owned()));
    }

    /// Record that the agent chose an option.
    pub fn record_choice(&mut self, label: &str)
        ensures
            final(self)@.agent_id == old(self)@.agent_id,
            final(self)@.decisions == old(self)@.decisions.push(DecisionModel::Choose(label@)),
    {
        self.record(Decision::Choose(label.to_owned()));
    }

    /// Total number of decisions recorded.
    pub fn total_decisions(&self) -> (n: usize)
        ensures
            n == self@.decisions.len(),
    {
        self.decisions.len()
    }

    /// Number of avoidances.
    pub fn avoidance_count(&self) -> (n: usize)
        ensures
            n == count_avoids(self@.decisions),
    {
        let mut n: usize = 0;
        let mut i: usize = 0;
        while i < self.decisions.len()
            invariant
                i <= self.decisions.len(),
                n == count_avoids(self@.decisions.take(i as int)),
                n <= i,
            decreases self.decisions.len() - i,
        {
            proof {
                let s = self@.decisions;
                assert(s.take(i + 1) =~= s.take(i as int).push(s[i as int]));
                lemma_log_push(s.take(i as int), s[i as int]);
            }
            if self.decisions[i].is_avoid() {
                n = n + 1;
            }
            i = i + 1;
        }
        proof {
            assert(self@.decisions.take(i as int) =~= self@.decisions);
        }
        n
    }

    /// Number of choices.
    pub fn choice_count(&self) -> (n: usize)
        ensures
            n == count_chooses(self@.decisions),
    {
        let mut n: usize = 0;
        let mut i: usize = 0;
        while i < self.decisions.len()
            invariant
                i <= self.decisions.len(),
                n == count_chooses(self@.decisions.take(i as int)),
                n <= i,
            decreases self.decisions.len() - i,
        {
            proof {
                let s = self@.decisions;
                assert(s.take(i + 1) =~= s.take(i as int).push(s[i as int]));
                lemma_log_push(s.take(i as int), s[i as int]);
            }
            if self.decisions[i].is_choose() {
                n = n + 1;
            }
            i = i + 1;
        }
        proof {
            assert(self@.decisions.take(i as int) =~= self@.decisions);
        }
        n
    }

    /// Compute the avoidance ratio (avoids / choices).
    ///
    /// Infinite if avoidances but no choices have been recorded; zero if no
    /// decisions have been recorded.
    pub fn avoidance_ratio(&self) -> (r: Ratio)
        ensures
            r == self.ratio_spec(),
            r.wf(),
    {
        let avoids = self.avoidance_count();
        let chooses = self.choice_count();
        Ratio::of_counts(avoids as u64, chooses as u64)
    }

    /// Check if this agent's avoidance ratio is strictly closer than
    /// `tolerance` to the expected 294:1.
    pub fn ratio_near_expected(&self, tolerance: Fraction) -> (b: bool)
        ensures
            b == ratio_within(self.ratio_spec(), AVOIDANCE_RATIO as int, tolerance),
    {
        let r = self.avoidance_ratio();
        r.within(AVOIDANCE_RATIO, &tolerance)
    }

    /// Get all decisions.
    pub fn decisions(&self) -> (d: &[Decision])
        ensures
            decision_models(d@) == self@.decisions,
    {
        self.decisions.as_slice()
    }

    /// Get all avoided labels.
    pub fn avoided_labels(&self) -> (labels: Vec<&str>)
        ensures
            labels@.map_values(|s: &str| s@) == avoided_labels_of(self@.decisions),
    {
        let mut labels: Vec<&str> = Vec::new();
        let mut i: usize = 0;
        while i < self.decisions.len()
            invariant
                i <= self.decisions.len(),
                labels@.map_values(|s: &str| s@) == avoided_labels_of(
                    self@.decisions.take(i as int),
                ),
            decreases self.decisions.len() - i,
        {
            proof {
                let s = self@.decisions;
                assert(s.take(i + 1) =~= s.take(i as int).push(s[i as int]));
                lemma_log_push(s.take(i as int), s[i as int]);
            }
            let d = &self.decisions[i];
            if d.is_avoid() {
                labels.push(d.label());
                proof {
                    assert(labels@.map_values(|s: &str| s@) =~= avoided_labels_of(
                        self@.decisions.take(i as int),
                    ).push(self@.decisions[i as int].label()));
                }
            }
            i = i + 1;
        }
        proof {
            assert(self@.decisions.take(i as int) =~= self@.decisions);
        }
        labels
    }

    /// Get all chosen labels.
    pub fn chosen_labels(&self) -> (labels: Vec<&str>)
        ensures
            labels@.map_values(|s: &str| s@) == chosen_labels_of(self@.decisions),
    {
        let mut labels: Vec<&str> = Vec::new();
        let mut i: usize = 0;
        while i < self.decisions.len()
            invariant
                i <= self.decisions.len(),
                labels@.map_values(|s: &str| s@) == chosen_labels_of(
                    self@.decisions.take(i as int),
                ),
            decreases self.decisions.len() - i,
        {
            proof {
                let s = self@.decisions;
                assert(s.take(i + 1) =~= s.take(i as int).push(s[i as int]));
                lemma_log_push(s.take(i as int), s[i as int]);
            }
            let d = &self.decisions[i];
            if d.is_choose() {
                labels.push(d.label());
                proof {
                    assert(labels@.map_values(|s: &str| s@) =~= chosen_labels_of(
                        self@.decisions.take(i as int),
                    ).push(self@.decisions[i as int].label()));
                }
            }
            i = i + 1;
        }
        proof {
            assert(self@.decisions.take(i as int) =~= self@.decisions);
        }
        labels
    }

    /// Detect if the agent's avoidance pattern violates the conservation law:
    /// the ratio is finite and deviates from 294:1 by more than `threshold`.
    /// An infinite ratio is not enough data to judge.
    pub fn conservation_violation(&self, threshold: Fraction) -> (b: bool)
        ensures
            b == ratio_beyond(self.ratio_spec(), AVOIDANCE_RATIO as int, threshold),
    {
        let r = self.avoidance_ratio();
        r.beyond(AVOIDANCE_RATIO, &threshold)
    }
}


/// Recording a decision counts it once, as what it is: an avoidance raises
/// the avoidance count by one and leaves the choice count, and a choice the
/// reverse; the total grows by one and always equals avoidances plus
/// choices.
pub proof fn law_record_counts(s: Seq<DecisionModel>, d: DecisionModel)
    ensures
        count_avoids(s.push(d)) == count_avoids(s) + if d is Avoid {
            1nat
        } else {
            0nat
        },
        count_chooses(s.push(d)) == count_chooses(s) + if d is Choose {
            1nat
        } else {
            0nat
        },
        count_avoids(s.push(d)) + count_chooses(s.push(d)) == s.len() + 1,
{
    lemma_log_push(s, d);
    lemma_log_counts(s.push(d));
}

/// The avoidance ratio is zero exactly when nothing was avoided and some
/// choice was made or nothing recorded, and infinite exactly when something
/// was avoided and nothing chosen.
pub proof fn law_ratio_cases(s: Seq<DecisionModel>)
    ensures
        log_ratio(s) is Infinite <==> count_avoids(s) > 0 && count_chooses(s) == 0,
        s.len() == 0 ==> log_ratio(s) == Ratio::Finite(Fraction { num: 0, den: 1 }),
{
    lemma_log_counts(s);
}

} // verus!
