//! Maps of the unknown regions between an agent's avoidances.

use vstd::prelude::*;

use crate::avoidance_tracker::{avoided_labels_of, chosen_labels_of, lemma_log_push};
use crate::inference_engine::{gap_views, GapModel, InferredGap};
use crate::ratio::Fraction;
use crate::text::{
    label_distance, sort_labels, sorted_labels, str_views, string_distance, string_views,
};
use crate::{AvoidanceTracker, Decision, DecisionModel};

verus! {

/// What a negative space map holds.
pub struct SpaceModel {
    pub agent_id: Seq<char>,
    pub avoided: Seq<Seq<char>>,
    pub chosen: Seq<Seq<char>>,
    pub gaps: Seq<GapModel>,
}

/// Confidence in a gap between labels at distance `d`: `1 / (1 + d)`, or
/// zero for labels at distance zero. The denominator stops at the largest
/// `u64`, which only a label of that many characters could reach.
pub open spec fn distance_confidence(d: nat) -> Fraction {
    if d == 0 {
        Fraction { num: 0, den: 1 }
    } else if d + 1 <= u64::MAX {
        Fraction { num: 1, den: (d + 1) as u64 }
    } else {
        Fraction { num: 1, den: u64::MAX }
    }
}

/// The gap between two neighbouring avoided labels: `left..right`, with a
/// confidence that falls with their distance.
pub open spec fn space_gap(l: Seq<char>, r: Seq<char>) -> GapModel {
    GapModel {
        left: l,
        right: r,
        inferred: l + ".."@ + r,
        confidence: distance_confidence(label_distance(l, r)),
    }
}

/// The gaps between neighbouring labels of a list.
pub open spec fn space_gaps(s: Seq<Seq<char>>) -> Seq<GapModel> {
    if s.len() < 2 {
        Seq::empty()
    } else {
        Seq::new((s.len() - 1) as nat, |k: int| space_gap(s[k], s[k + 1]))
    }
}

/// Coverage of `avoided` avoided and `chosen` chosen labels: the share of
/// avoidances, zero when nothing is recorded.
pub open spec fn coverage_of(avoided: nat, chosen: nat) -> Fraction {
    if avoided + chosen == 0 {
        Fraction { num: 0, den: 1 }
    } else {
        Fraction { num: avoided as u64, den: (avoided + chosen) as u64 }
    }
}

/// Density of `n` avoided labels: one over the number of gaps between them,
/// zero with fewer than two.
pub open spec fn density_of(n: nat) -> Fraction {
    if n <= 1 {
        Fraction { num: 0, den: 1 }
    } else {
        Fraction { num: 1, den: (n - 1) as u64 }
    }
}

/// Maps the unknown regions between avoidances to reveal hidden structure.
///
/// Negative space is the art of reading what isn't there: the gaps between
/// avoidances define the agent's intelligence.
#[derive(Debug)]
pub struct NegativeSpace {
    agent_id: String,
    avoided: Vec<String>,
    chosen: Vec<String>,
    gaps: Vec<InferredGap>,
}

impl View for NegativeSpace {
    type V = SpaceModel;

    closed spec fn view(&self) -> SpaceModel {
        SpaceModel {
            agent_id: self.agent_id@,
            avoided: string_views(self.avoided@),
            chosen: string_views(self.chosen@),
            gaps: gap_views(self.gaps@),
        }
    }
}

/// Labels of a list of strings, as string slices.
fn as_strs(v: &Vec<String>) -> (res: Vec<&str>)
    ensures
        str_views(res@) == string_views(v@),
{
    let mut res: Vec<&str> = Vec::new();
    let mut i: usize = 0;
    while i < v.len()
        invariant
            i <= v@.len(),
            str_views(res@) == string_views(v@.take(i as int)),
        decreases v@.len() - i,
    {
        let ghost prev = res@;
        res.push(v[i].as_str());
        proof {
            assert(str_views(res@) =~= str_views(prev).push(v@[i as int]@));
            assert(string_views(v@.take(i + 1)) =~= string_views(v@.take(i as int)).push(
                v@[i as int]@,
            ));
        }
        i = i + 1;
    }
    proof {
        assert(v@.take(i as int) =~= v@);
    }
    res
}

/// A copy of a list of strings.
fn clone_strings(v: &Vec<String>) -> (res: Vec<String>)
    ensures
        string_views(res@) == string_views(v@),
{
    let mut res: Vec<String> = Vec::new();
    let mut i: usize = 0;
    while i < v.len()
        invariant
            i <= v@.len(),
            string_views(res@) == string_views(v@.take(i as int)),
        decreases v@.len() - i,
    {
        let s = v[i].clone();
        let ghost prev = res@;
        res.push(s);
        proof {
            assert(string_views(res@) =~= string_views(prev).push(s@));
            assert(string_views(v@.take(i + 1)) =~= string_views(v@.take(i as int)).push(
                v@[i as int]@,
            ));
        }
        i = i + 1;
    }
    proof {
        assert(v@.take(i as int) =~= v@);
    }
    res
}

/// A copy of a list of gaps.
fn clone_gaps(v: &Vec<InferredGap>) -> (res: Vec<InferredGap>)
    ensures
        gap_views(res@) == gap_views(v@),
{
    let mut res: Vec<InferredGap> = Vec::new();
    let mut i: usize = 0;
    while i < v.len()
        invariant
            i <= v@.len(),
            gap_views(res@) == gap_views(v@.take(i as int)),
        decreases v@.len() - i,
    {
        let g = v[i].clone();
        let ghost prev = res@;
        res.push(g);
        proof {
            assert(gap_views(res@) =~= gap_views(prev).push(g@));
            assert(gap_views(v@.take(i + 1)) =~= gap_views(v@.take(i as int)).push(v@[i as int]@));
        }
        i = i + 1;
    }
    proof {
        assert(v@.take(i as int) =~= v@);
    }
    res
}

impl Clone for NegativeSpace {
    fn clone(&self) -> (res: Self)
        ensures
            res@ == self@,
    {
        NegativeSpace {
            agent_id: self.agent_id.clone(),
            avoided: clone_strings(&self.avoided),
            chosen: clone_strings(&self.chosen),
            gaps: clone_gaps(&self.gaps),
        }
    }
}

impl NegativeSpace {
    /// Create a new negative space map for an agent.
    pub fn new(agent_id: &str) -> (ns: Self)
        ensures
            ns@ == (SpaceModel {
                agent_id: agent_id@,
                avoided: Seq::empty(),
                chosen: Seq::empty(),
                gaps: Seq::empty(),
            }),
    {
        let ns = NegativeSpace {
            agent_id: agent_id.to_owned(),
            avoided: Vec::new(),
            chosen: Vec::new(),
            gaps: Vec::new(),
        };
        proof {
            assert(ns@.avoided =~= Seq::<Seq<char>>::empty());
            assert(ns@.chosen =~= Seq::<Seq<char>>::empty());
            assert(ns@.gaps =~= Seq::<GapModel>::empty());
        }
        ns
    }

    /// Build negative space from an avoidance tracker: its avoided and chosen
    /// labels, in the order recorded.
    pub fn from_tracker(tracker: &AvoidanceTracker) -> (ns: Self)
        ensures
            ns@ == (SpaceModel {
                agent_id: tracker@.agent_id,
                avoided: avoided_labels_of(tracker@.decisions),
                chosen: chosen_labels_of(tracker@.decisions),
                gaps: Seq::empty(),
            }),
    {
        let mut ns = Self::new(tracker.agent_id());
        let decisions = tracker.decisions();
        let ghost s = tracker@.decisions;
        let mut i: usize = 0;
        while i < decisions.len()
            invariant
                crate::avoidance_tracker::decision_models(decisions@) == s,
                i <= decisions@.len(),
                ns@ == (SpaceModel {
                    agent_id: tracker@.agent_id,
                    avoided: avoided_labels_of(s.take(i as int)),
                    chosen: chosen_labels_of(s.take(i as int)),
                    gaps: Seq::empty(),
                }),
            decreases decisions@.len() - i,
        {
            proof {
                assert(s.take(i + 1) =~= s.take(i as int).push(s[i as int]));
                lemma_log_push(s.take(i as int), s[i as int]);
            }
            match &decisions[i] {
                Decision::Avoid(label) => ns.add_avoided(label.as_str()),
                Decision::Choose(label) => ns.add_chosen(label.as_str()),
            }
            i = i + 1;
        }
        proof {
            assert(s.take(i as int) =~= s);
        }
        ns
    }

    /// Add an avoided option.
    pub fn add_avoided(&mut self, label: &str)
        ensures
            final(self)@ == (SpaceModel { avoided: old(self)@.avoided.push(label@), ..old(self)@ }),
    {
        self.avoided.push(label.to_owned());
        proof {
            assert(self@.avoided =~= old(self)@.avoided.push(label@));
        }
    }

    /// Add a chosen option.
    pub fn add_chosen(&mut self, label: &str)
        ensures
            final(self)@ == (SpaceModel { chosen: old(self)@.chosen.push(label@), ..old(self)@ }),
    {
        self.chosen.push(label.to_owned());
        proof {
            assert(self@.chosen =~= old(self)@.chosen.push(label@));
        }
    }

    /// Get the avoided labels.
    pub fn avoided(&self) -> (labels: &[String])
        ensures
            string_views(labels@) == self@.avoided,
    {
        self.avoided.as_slice()
    }

    /// Get the chosen labels.
    pub fn chosen(&self) -> (labels: &[String])
        ensures
            string_views(labels@) == self@.chosen,
    {
        self.chosen.as_slice()
    }

    /// The coverage: the share of recorded options that are avoidances,
    /// zero when nothing is recorded.
    pub fn coverage(&self) -> (c: Fraction)
        requires
            self@.avoided.len() + self@.chosen.len() <= usize::MAX,
        ensures
            c == coverage_of(self@.avoided.len(), self@.chosen.len()),
    {
        let total = self.avoided.len() + self.chosen.len();
        if total == 0 {
            Fraction::zero()
        } else {
            Fraction { num: self.avoided.len() as u64, den: total as u64 }
        }
    }

    /// Find the gaps between neighbouring avoidances, in sorted order:
    /// regions of option space that were neither avoided nor chosen.
    pub fn find_gaps(&mut self) -> (gaps: &[InferredGap])
        ensures
            final(self)@ == (SpaceModel {
                gaps: space_gaps(sorted_labels(old(self)@.avoided)),
                ..old(self)@
            }),
            gap_views(gaps@) == final(self)@.gaps,
    {
        let labels = as_strs(&self.avoided);
        let sorted = sort_labels(&labels);
        let ghost s = string_views(sorted@);
        let ghost target = space_gaps(s);
        let mut gaps: Vec<InferredGap> = Vec::new();
        if sorted.len() >= 2 {
            let limit = sorted.len() - 1;
            let mut k: usize = 0;
            while k < limit
                invariant
                    s == string_views(sorted@),
                    sorted@.len() >= 2,
                    limit == sorted@.len() - 1,
                    target == space_gaps(s),
                    k <= limit,
                    gap_views(gaps@) == target.take(k as int),
                decreases limit - k,
            {
                let left = &sorted[k];
                let right = &sorted[k + 1];
                let mut inferred = left.clone();
                inferred.append("..");
                inferred.append(right.as_str());
                let d = string_distance(left.as_str(), right.as_str());
                let confidence = if d == 0 {
                    Fraction::zero()
                } else {
                    Fraction { num: 1, den: (d as u64).saturating_add(1) }
                };
                let gap = InferredGap {
                    left: left.clone(),
                    right: right.clone(),
                    inferred,
                    confidence,
                };
                let ghost prev = gaps@;
                gaps.push(gap);
                proof {
                    assert(gap_views(gaps@) =~= gap_views(prev).push(gap@));
                    assert(target.take(k + 1) =~= target.take(k as int).push(target[k as int]));
                }
                k = k + 1;
            }
            proof {
                assert(target.take(k as int) =~= target);
            }
        } else {
            proof {
                assert(gap_views(gaps@) =~= target);
            }
        }
        self.gaps = gaps;
        self.gaps.as_slice()
    }

    /// Get discovered gaps.
    pub fn gaps(&self) -> (gaps: &[InferredGap])
        ensures
            gap_views(gaps@) == self@.gaps,
    {
        self.gaps.as_slice()
    }

    /// The density of negative space: `1 / (n - 1)` for `n >= 2` avoidances,
    /// zero otherwise.
    pub fn density(&self) -> (d: Fraction)
        ensures
            d == density_of(self@.avoided.len()),
    {
        if self.avoided.len() <= 1 {
            Fraction::zero()
        } else {
            Fraction { num: 1, den: (self.avoided.len() - 1) as u64 }
        }
    }
}


/// Gap confidence in a negative space lies between zero and one, and is zero
/// only for labels at distance zero.
pub proof fn law_space_confidence_bounds(l: Seq<char>, r: Seq<char>)
    ensures
        space_gap(l, r).confidence.den > 0,
        space_gap(l, r).confidence.num <= space_gap(l, r).confidence.den,
        space_gap(l, r).confidence.num == 0 <==> label_distance(l, r) == 0,
{
    crate::text::lemma_distance_bound(l, r);
}

/// A negative space built from a tracker covers exactly the tracker's
/// avoidances: as many avoided labels as avoidances, as many chosen labels
/// as choices, so that its coverage is the tracker's share of avoidances.
pub proof fn law_space_from_tracker_counts(s: Seq<DecisionModel>)
    ensures
        avoided_labels_of(s).len() == crate::avoidance_tracker::count_avoids(s),
        chosen_labels_of(s).len() == crate::avoidance_tracker::count_chooses(s),
        avoided_labels_of(s).len() + chosen_labels_of(s).len() == s.len(),
{
    crate::avoidance_tracker::lemma_log_counts(s);
}

/// Finding gaps yields one gap per pair of neighbouring avoided labels, each
/// between a label and the next one in order.
pub proof fn law_space_gaps_in_order(s: Seq<Seq<char>>)
    ensures
        space_gaps(sorted_labels(s)).len() == if s.len() < 2 {
            0
        } else {
            s.len() - 1
        },
        forall|k: int|
            0 <= k < space_gaps(sorted_labels(s)).len() ==> crate::text::lex_le(
                (#[trigger] space_gaps(sorted_labels(s))[k]).left,
                space_gaps(sorted_labels(s))[k].right,
            ),
{
    crate::text::lemma_sorted_labels_from(s);
    crate::text::law_sorted_in_order(s);
    assert forall|k: int| 0 <= k < space_gaps(sorted_labels(s)).len() implies crate::text::lex_le(
        (#[trigger] space_gaps(sorted_labels(s))[k]).left,
        space_gaps(sorted_labels(s))[k].right,
    ) by {
        assert(crate::text::lex_le(sorted_labels(s)[k], sorted_labels(s)[k + 1]));
    }
}


/// Coverage is a share: the avoided labels over all recorded labels, never
/// more than one, and one exactly when something was recorded and nothing
/// chosen.
pub proof fn law_coverage_is_share(avoided: nat, chosen: nat)
    requires
        avoided + chosen <= u64::MAX,
    ensures
        ({
            let c = coverage_of(avoided, chosen);
            &&& c.den > 0
            &&& c.num <= c.den
            &&& (c.num == c.den <==> avoided > 0 && chosen == 0)
            &&& c.num * (avoided + chosen) == avoided * c.den
        }),
{
}


/// A threshold of zero keeps every candidate gap.
pub proof fn lemma_zero_threshold_keeps_all(gs: Seq<GapModel>)
    ensures
        crate::inference_engine::keep_confident(gs, Fraction { num: 0, den: 1 }) == gs,
    decreases gs.len(),
{
    if gs.len() > 0 {
        lemma_zero_threshold_keeps_all(gs.drop_last());
        assert(gs.drop_last().push(gs.last()) =~= gs);
    }
}

/// Negative space maps and agent inference read the same gaps: for the same
/// avoided labels, the gaps found in a negative space lie between the same
/// neighbouring labels, in the same order, as the gaps inferred for the
/// agent with a zero threshold.
pub proof fn law_space_and_inference_agree(s: Seq<Seq<char>>)
    ensures
        ({
            let inferred = crate::inference_engine::keep_confident(
                crate::inference_engine::adjacent_gaps(sorted_labels(s)),
                Fraction { num: 0, den: 1 },
            );
            let mapped = space_gaps(sorted_labels(s));
            &&& inferred.len() == mapped.len()
            &&& forall|k: int|
                0 <= k < mapped.len() ==> (#[trigger] inferred[k]).left == mapped[k].left
                    && inferred[k].right == mapped[k].right
        }),
{
    lemma_zero_threshold_keeps_all(crate::inference_engine::adjacent_gaps(sorted_labels(s)));
}


/// Density is one over the number of gaps between the avoidances: with
/// `n >= 2` avoided labels, density times `n - 1` is one; with fewer it is
/// zero. The gaps counted are exactly those that finding gaps yields, so
/// density times the number of gaps found is one.
pub proof fn law_density_is_reciprocal_of_gaps(s: Seq<Seq<char>>)
    requires
        s.len() <= u64::MAX,
    ensures
        s.len() >= 2 ==> density_of(s.len()).den > 0 && density_of(s.len()).num * (s.len() - 1)
            == density_of(s.len()).den,
        s.len() >= 2 ==> density_of(s.len()).num * space_gaps(sorted_labels(s)).len()
            == density_of(s.len()).den,
        s.len() < 2 ==> density_of(s.len()).num == 0 && density_of(s.len()).den > 0,
{
    crate::text::lemma_sorted_labels_from(s);
}

} // verus!
