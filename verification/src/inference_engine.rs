//! Deductions from negative space: the Inference from Absence Law.

use vstd::prelude::*;

use crate::avoidance_tracker::{avoided_labels_of, lemma_log_counts, TrackerModel};
use crate::population::{lemma_sums, models, sum_decisions};
use crate::ratio::Fraction;
use crate::text::{
    byte_len, byte_length, char_vec, common_prefix_len, common_prefix_length,
    lemma_byte_len_at_least_chars, lemma_matches_all, lemma_matches_bound, lemma_matches_self,
    match_count,
    match_count_exec, min_nat, sort_labels, sorted_labels, string_views,
};
use crate::AvoidanceTracker;

verus! {

/// A gap inferred from negative space analysis.
#[derive(Debug)]
pub struct InferredGap {
    /// The left boundary of the gap (an avoided option).
    pub left: String,
    /// The right boundary of the gap (an avoided option).
    pub right: String,
    /// The inferred entity/option in the gap.
    pub inferred: String,
    /// Confidence in this inference (between 0 and 1).
    pub confidence: Fraction,
}

/// What an inferred gap holds.
pub struct GapModel {
    pub left: Seq<char>,
    pub right: Seq<char>,
    pub inferred: Seq<char>,
    pub confidence: Fraction,
}

impl View for InferredGap {
    type V = GapModel;

    open spec fn view(&self) -> GapModel {
        GapModel {
            left: self.left@,
            right: self.right@,
            inferred: self.inferred@,
            confidence: self.confidence,
        }
    }
}

impl PartialEq for InferredGap {
    fn eq(&self, other: &Self) -> (res: bool) {
        let same_left = self.left == other.left;
        let same_right = self.right == other.right;
        let same_inferred = self.inferred == other.inferred;
        same_left && same_right && same_inferred && self.confidence == other.confidence
    }
}

impl vstd::std_specs::cmp::PartialEqSpecImpl for InferredGap {
    open spec fn obeys_eq_spec() -> bool {
        true
    }

    open spec fn eq_spec(&self, other: &InferredGap) -> bool {
        &&& self.left@ == other.left@
        &&& self.right@ == other.right@
        &&& self.inferred@ == other.inferred@
        &&& self.confidence.eq_value(other.confidence)
    }
}

impl Clone for InferredGap {
    fn clone(&self) -> (res: Self)
        ensures
            res@ == self@,
    {
        InferredGap {
            left: self.left.clone(),
            right: self.right.clone(),
            inferred: self.inferred.clone(),
            confidence: self.confidence,
        }
    }
}

/// What a list of gaps holds.
pub open spec fn gap_views(v: Seq<InferredGap>) -> Seq<GapModel> {
    v.map_values(|g: InferredGap| g@)
}

/// The label inferred between two avoided labels: their common prefix, then
/// in brackets what follows it in each (`prefix[rest_l↔rest_r]`), or
/// `left≡right` when nothing follows it in either.
///
/// What follows the prefix is found by skipping, in each label, as many
/// characters as the prefix has bytes (all of the label when it is shorter).
/// For ASCII labels that is exactly the prefix; a prefix holding wider
/// characters also skips characters after it.
pub open spec fn inferred_label(l: Seq<char>, r: Seq<char>) -> Seq<char> {
    let k = common_prefix_len(l, r);
    let p = l.take(k as int);
    let b = byte_len(p);
    let sl = l.skip(min_nat(b, l.len()) as int);
    let sr = r.skip(min_nat(b, r.len()) as int);
    if sl.len() == 0 && sr.len() == 0 {
        l + "\u{2261}"@ + r
    } else {
        p + "["@ + sl + "\u{2194}"@ + sr + "]"@
    }
}

/// The larger of two numbers.
pub open spec fn max_nat(x: nat, y: nat) -> nat {
    if x >= y {
        x
    } else {
        y
    }
}

/// Confidence that something lies between two avoided labels: the number of
/// positions where their characters agree over the byte length of the
/// longer; zero for identical labels.
pub open spec fn gap_confidence(l: Seq<char>, r: Seq<char>) -> Fraction {
    let m = max_nat(byte_len(l), byte_len(r));
    if l == r || m == 0 {
        Fraction { num: 0, den: 1 }
    } else {
        Fraction { num: match_count(l, r) as u64, den: m as u64 }
    }
}

/// The gap inferred between two avoided labels.
pub open spec fn gap_between(l: Seq<char>, r: Seq<char>) -> GapModel {
    GapModel { left: l, right: r, inferred: inferred_label(l, r), confidence: gap_confidence(l, r) }
}

/// The gaps between each pair of neighbouring labels of a list.
pub open spec fn adjacent_gaps(s: Seq<Seq<char>>) -> Seq<GapModel> {
    if s.len() < 2 {
        Seq::empty()
    } else {
        Seq::new((s.len() - 1) as nat, |k: int| gap_between(s[k], s[k + 1]))
    }
}

/// The gaps whose confidence reaches the threshold, in order.
pub open spec fn keep_confident(gs: Seq<GapModel>, threshold: Fraction) -> Seq<GapModel>
    decreases gs.len(),
{
    if gs.len() == 0 {
        Seq::empty()
    } else if threshold.le_value(gs.last().confidence) {
        keep_confident(gs.drop_last(), threshold).push(gs.last())
    } else {
        keep_confident(gs.drop_last(), threshold)
    }
}

/// A pair of neighbouring avoided labels.
pub type LabelPair = (Seq<char>, Seq<char>);

/// The pairs of neighbouring labels of a list.
pub open spec fn adjacent_pairs(s: Seq<Seq<char>>) -> Seq<LabelPair> {
    if s.len() < 2 {
        Seq::empty()
    } else {
        Seq::new((s.len() - 1) as nat, |k: int| (s[k], s[k + 1]))
    }
}

/// The pairs of neighbouring avoided labels of an agent, in sorted order.
pub open spec fn agent_pairs(t: TrackerModel) -> Seq<LabelPair> {
    adjacent_pairs(sorted_labels(avoided_labels_of(t.decisions)))
}

/// The pairs of neighbouring avoided labels of a population, agent after
/// agent.
pub open spec fn population_pairs(ts: Seq<TrackerModel>) -> Seq<LabelPair>
    decreases ts.len(),
{
    if ts.len() == 0 {
        Seq::empty()
    } else {
        population_pairs(ts.drop_last()) + agent_pairs(ts.last())
    }
}

/// The distinct pairs of a list, in the order in which each first appears.
pub open spec fn first_occurrences(s: Seq<LabelPair>) -> Seq<LabelPair>
    decreases s.len(),
{
    if s.len() == 0 {
        Seq::empty()
    } else if first_occurrences(s.drop_last()).contains(s.last()) {
        first_occurrences(s.drop_last())
    } else {
        first_occurrences(s.drop_last()).push(s.last())
    }
}

/// Confidence in a gap that `count` neighbouring pairs show among `agents`
/// agents: `count / agents`, at most one.
pub open spec fn pair_confidence(count: nat, agents: nat) -> Fraction {
    if count <= agents {
        Fraction { num: count as u64, den: agents as u64 }
    } else {
        Fraction { num: 1, den: 1 }
    }
}

/// The candidate gaps of a population: one for each distinct pair of
/// neighbouring avoided labels, in order of first appearance, with the
/// population confidence of that pair.
pub open spec fn population_candidates(ts: Seq<TrackerModel>) -> Seq<GapModel> {
    let pairs = population_pairs(ts);
    let keys = first_occurrences(pairs);
    Seq::new(
        keys.len(),
        |k: int|
            GapModel {
                left: keys[k].0,
                right: keys[k].1,
                inferred: inferred_label(keys[k].0, keys[k].1),
                confidence: pair_confidence(pairs.to_multiset().count(keys[k]), ts.len()),
            },
    )
}

/// Whether two character lists are the same.
fn same_chars(a: &Vec<char>, b: &Vec<char>) -> (res: bool)
    ensures
        res == (a@ == b@),
{
    if a.len() != b.len() {
        return false;
    }
    let n = match_count_exec(a, b);
    proof {
        lemma_matches_all(a@, b@, a@.len());
        if n == a.len() {
            assert(a@ =~= b@);
        }
        if a@ == b@ {
            lemma_matches_self(a@, a@.len());
        }
    }
    n == a.len()
}

/// Generate an inferred label for the gap between two avoided options.
fn generate_inferred(left: &str, right: &str) -> (s: String)
    ensures
        s@ == inferred_label(left@, right@),
{
    let lc = char_vec(left);
    let rc = char_vec(right);
    let k = common_prefix_length(&lc, &rc);
    let prefix = left.substring_char(0, k);
    let b = byte_length(prefix);
    let ls = if b < lc.len() {
        b
    } else {
        lc.len()
    };
    let rs = if b < rc.len() {
        b
    } else {
        rc.len()
    };
    let suffix_l = left.substring_char(ls, lc.len());
    let suffix_r = right.substring_char(rs, rc.len());
    proof {
        assert(prefix@ =~= left@.take(k as int));
        assert(suffix_l@ =~= left@.skip(ls as int));
        assert(suffix_r@ =~= right@.skip(rs as int));
    }
    if ls == lc.len() && rs == rc.len() {
        let mut s = left.to_owned();
        s.append("\u{2261}");
        s.append(right);
        s
    } else {
        let mut s = prefix.to_owned();
        s.append("[");
        s.append(suffix_l);
        s.append("\u{2194}");
        s.append(suffix_r);
        s.append("]");
        s
    }
}

/// Compute confidence based on similarity of the two avoided options.
fn compute_confidence(left: &str, right: &str) -> (c: Fraction)
    ensures
        c == gap_confidence(left@, right@),
{
    let lc = char_vec(left);
    let rc = char_vec(right);
    if same_chars(&lc, &rc) {
        return Fraction::zero();
    }
    let lb = byte_length(left);
    let rb = byte_length(right);
    let max_len = if lb >= rb {
        lb
    } else {
        rb
    };
    if max_len == 0 {
        return Fraction::zero();
    }
    let matches = match_count_exec(&lc, &rc);
    Fraction { num: matches as u64, den: max_len as u64 }
}

/// Makes deductions from negative spaces: if agents avoid X and Y, the gap
/// between them implies the existence of Z.
#[derive(Debug, Clone, Copy)]
pub struct InferenceEngine {
    /// Minimum confidence for accepting an inference.
    pub confidence_threshold: Fraction,
}

impl Default for InferenceEngine {
    fn default() -> (e: Self)
        ensures
            e.confidence_threshold == (Fraction { num: 3, den: 10 }),
    {
        InferenceEngine { confidence_threshold: Fraction { num: 3, den: 10 } }
    }
}

impl InferenceEngine {
    /// An engine accepting inferences whose confidence reaches `confidence_threshold`.
    pub fn new(confidence_threshold: Fraction) -> (e: Self)
        ensures
            e.confidence_threshold == confidence_threshold,
    {
        InferenceEngine { confidence_threshold }
    }

    /// Infer what lies between two avoided options.
    ///
    /// If agents consistently avoid both X and Y, the space between them
    /// likely contains something they haven't encountered.
    pub fn infer_between(&self, left: &str, right: &str) -> (gap: InferredGap)
        ensures
            gap@ == gap_between(left@, right@),
    {
        let inferred = generate_inferred(left, right);
        let confidence = compute_confidence(left, right);
        InferredGap { left: left.to_owned(), right: right.to_owned(), inferred, confidence }
    }

    /// Batch inference: the gaps between neighbouring avoided labels of the
    /// agent, in sorted order, that reach the confidence threshold.
    pub fn infer_from_agent(&self, tracker: &AvoidanceTracker) -> (gaps: Vec<InferredGap>)
        ensures
            gap_views(gaps@) == keep_confident(
                adjacent_gaps(sorted_labels(avoided_labels_of(tracker@.decisions))),
                self.confidence_threshold,
            ),
    {
        let avoided = tracker.avoided_labels();
        let sorted = sort_labels(&avoided);
        let ghost s = string_views(sorted@);
        let ghost candidates = adjacent_gaps(s);
        let mut gaps: Vec<InferredGap> = Vec::new();
        if sorted.len() < 2 {
            proof {
                assert(gap_views(gaps@) =~= Seq::<GapModel>::empty());
            }
            return gaps;
        }
        let mut k: usize = 0;
        let limit = sorted.len() - 1;
        while k < limit
            invariant
                s == string_views(sorted@),
                sorted@.len() >= 2,
                limit == sorted@.len() - 1,
                candidates == adjacent_gaps(s),
                k <= limit,
                gap_views(gaps@) == keep_confident(
                    candidates.take(k as int),
                    self.confidence_threshold,
                ),
            decreases sorted@.len() - k,
        {
            let gap = self.infer_between(sorted[k].as_str(), sorted[k + 1].as_str());
            proof {
                assert(candidates.take(k + 1).drop_last() =~= candidates.take(k as int));
                assert(candidates[k as int] == gap@);
            }
            if gap.confidence.at_least(&self.confidence_threshold) {
                let ghost prev = gaps@;
                gaps.push(gap);
                proof {
                    assert(gap_views(gaps@) =~= gap_views(prev).push(gap@));
                }
            }
            k = k + 1;
        }
        proof {
            assert(candidates.take(k as int) =~= candidates);
        }
        gaps
    }
}

/// An agent shows no more neighbouring pairs than it has decisions.
proof fn lemma_agent_pairs_len(t: TrackerModel)
    ensures
        agent_pairs(t).len() <= t.decisions.len(),
{
    lemma_log_counts(t.decisions);
    crate::text::lemma_sorted_labels_from(avoided_labels_of(t.decisions));
}

/// A population shows no more neighbouring pairs than it has decisions.
proof fn lemma_population_pairs_len(ts: Seq<TrackerModel>)
    ensures
        population_pairs(ts).len() <= sum_decisions(ts),
    decreases ts.len(),
{
    if ts.len() > 0 {
        lemma_population_pairs_len(ts.drop_last());
        lemma_agent_pairs_len(ts.last());
    }
}

/// Where the pair `(l, r)` stands in the table of pairs seen so far.
fn find_pair(keys_l: &Vec<String>, keys_r: &Vec<String>, l: &String, r: &String) -> (res: Option<
    usize,
>)
    requires
        keys_l@.len() == keys_r@.len(),
    ensures
        match res {
            Some(j) => j < keys_l@.len() && keys_l@[j as int]@ == l@ && keys_r@[j as int]@ == r@,
            None => forall|j: int|
                0 <= j < keys_l@.len() ==> !(keys_l@[j]@ == l@ && keys_r@[j]@ == r@),
        },
{
    let mut j: usize = 0;
    while j < keys_l.len()
        invariant
            keys_l@.len() == keys_r@.len(),
            j <= keys_l@.len(),
            forall|m: int| 0 <= m < j ==> !(keys_l@[m]@ == l@ && keys_r@[m]@ == r@),
        decreases keys_l@.len() - j,
    {
        if keys_l[j] == *l && keys_r[j] == *r {
            return Some(j);
        }
        j = j + 1;
    }
    None
}

/// The pairs held by a table of pairs.
spec fn table_pairs(keys_l: Seq<String>, keys_r: Seq<String>) -> Seq<LabelPair> {
    Seq::new(keys_l.len(), |j: int| (keys_l[j]@, keys_r[j]@))
}

impl InferenceEngine {
    /// Cross-agent inference: a gap for each distinct pair of neighbouring
    /// avoided labels over the population, in order of first appearance,
    /// whose confidence (the share of agents showing the pair, at most one)
    /// reaches the threshold.
    pub fn infer_population(&self, trackers: &[AvoidanceTracker]) -> (gaps: Vec<InferredGap>)
        requires
            sum_decisions(models(trackers@)) <= usize::MAX,
        ensures
            gap_views(gaps@) == keep_confident(
                population_candidates(models(trackers@)),
                self.confidence_threshold,
            ),
    {
        broadcast use vstd::multiset::group_multiset_axioms;
        broadcast use vstd::seq_lib::group_to_multiset_ensures;

        let ghost ms = models(trackers@);
        // The counts are kept in a table of pairs searched in order, beside
        // the pairs themselves: a map keyed by pairs of strings would leave
        // its contents unknown here (nothing is known of how strings hash),
        // and keying it by integer ids would need a map from labels to ids,
        // keyed by strings again. The table also fixes the order of the
        // result: the order in which each pair first appears.
        let mut keys_l: Vec<String> = Vec::new();
        let mut keys_r: Vec<String> = Vec::new();
        let mut counts: Vec<usize> = Vec::new();
        let ghost mut pairs: Seq<LabelPair> = Seq::empty();
        let mut i: usize = 0;
        proof {
            assert(table_pairs(keys_l@, keys_r@) =~= first_occurrences(pairs));
            assert(pairs =~= population_pairs(ms.take(0)));
        }
        while i < trackers.len()
            invariant
                ms == models(trackers@),
                sum_decisions(ms) <= usize::MAX,
                i <= trackers@.len(),
                pairs == population_pairs(ms.take(i as int)),
                keys_l@.len() == keys_r@.len(),
                keys_l@.len() == counts@.len(),
                table_pairs(keys_l@, keys_r@) == first_occurrences(pairs),
                forall|j: int|
                    0 <= j < counts@.len() ==> #[trigger] counts@[j] == pairs.to_multiset().count(
                        table_pairs(keys_l@, keys_r@)[j],
                    ),
                forall|j: int| 0 <= j < counts@.len() ==> #[trigger] counts@[j] <= pairs.len(),
            decreases trackers@.len() - i,
        {
            let avoided = trackers[i].avoided_labels();
            let sorted = sort_labels(&avoided);
            let ghost agent = agent_pairs(ms[i as int]);
            let ghost before = pairs;
            proof {
                assert(ms.take(i + 1).drop_last() =~= ms.take(i as int));
                lemma_population_pairs_len(ms.take(i + 1));
                lemma_sums(ms, i + 1);
                assert(population_pairs(ms.take(i + 1)) == before + agent);
                assert(sorted_labels(avoided_labels_of(ms[i as int].decisions)) == string_views(sorted@));
            }
            let mut k: usize = 0;
            let limit = if sorted.len() >= 2 {
                sorted.len() - 1
            } else {
                0
            };
            while k < limit
                invariant
                    agent == adjacent_pairs(string_views(sorted@)),
                    (before + agent).len() <= usize::MAX,
                    limit == agent.len(),
                    limit > 0 ==> limit == sorted@.len() - 1,
                    k <= limit,
                    pairs == before + agent.take(k as int),
                    keys_l@.len() == keys_r@.len(),
                    keys_l@.len() == counts@.len(),
                    table_pairs(keys_l@, keys_r@) == first_occurrences(pairs),
                    forall|j: int|
                        0 <= j < counts@.len() ==> #[trigger] counts@[j]
                            == pairs.to_multiset().count(table_pairs(keys_l@, keys_r@)[j]),
                    forall|j: int| 0 <= j < counts@.len() ==> #[trigger] counts@[j] <= pairs.len(),
                decreases sorted@.len() - k,
            {
                let l = &sorted[k];
                let r = &sorted[k + 1];
                let ghost p: LabelPair = (l@, r@);
                let ghost old_pairs = pairs;
                let ghost old_table = table_pairs(keys_l@, keys_r@);
                let ghost old_counts = counts@;
                proof {
                    vstd::seq_lib::to_multiset_build(old_pairs, p);
                    assert(agent[k as int] == p);
                    assert(agent.take(k + 1) =~= agent.take(k as int).push(p));
                    assert(before + agent.take(k + 1) =~= (before + agent.take(k as int)).push(p));
                    pairs = pairs.push(p);
                    assert(pairs.drop_last() =~= old_pairs);
                    assert(pairs.len() <= (before + agent).len());
                }
                match find_pair(&keys_l, &keys_r, l, r) {
                    Some(j) => {
                        proof {
                            assert(old_table[j as int] == p);
                            assert(first_occurrences(old_pairs).contains(p));
                            lemma_first_occurrences_contains(old_pairs, p);
                        }
                        let c = counts[j];
                        counts.set(j, c + 1);
                        proof {
                            assert(table_pairs(keys_l@, keys_r@) == old_table);
                            assert forall|m: int| 0 <= m < counts@.len() implies #[trigger] counts@[m]
                                == pairs.to_multiset().count(table_pairs(keys_l@, keys_r@)[m]) by {
                                if m != j {
                                    assert(old_table[m] != p);
                                    assert(counts@[m] == old_counts[m]);
                                    assert(old_counts[m] == old_pairs.to_multiset().count(old_table[m]));
                                } else {
                                    assert(old_counts[m] == old_pairs.to_multiset().count(p));
                                }
                            }
                        }
                    },
                    None => {
                        proof {
                            assert(!first_occurrences(old_pairs).contains(p)) by {
                                if first_occurrences(old_pairs).contains(p) {
                                    let m = choose|m: int|
                                        0 <= m < old_table.len() && old_table[m] == p;
                                    assert(keys_l@[m]@ == l@ && keys_r@[m]@ == r@);
                                }
                            }
                        }
                        keys_l.push(l.clone());
                        keys_r.push(r.clone());
                        counts.push(1);
                        proof {
                            assert(table_pairs(keys_l@, keys_r@) =~= old_table.push(p));
                            assert forall|m: int| 0 <= m < counts@.len() implies #[trigger] counts@[m]
                                == pairs.to_multiset().count(table_pairs(keys_l@, keys_r@)[m]) by {
                                if m < old_table.len() {
                                    assert(old_table[m] != p);
                                    assert(counts@[m] == old_counts[m]);
                                    assert(old_counts[m] == old_pairs.to_multiset().count(old_table[m]));
                                } else {
                                    assert(!old_pairs.contains(p)) by {
                                        if old_pairs.contains(p) {
                                            lemma_first_occurrences_contains(old_pairs, p);
                                        }
                                    }
                                    old_pairs.to_multiset_ensures();
                                    assert(old_pairs.to_multiset().count(p) == 0);
                                    assert(table_pairs(keys_l@, keys_r@)[m] == p);
                                }
                            }
                        }
                    },
                }
                k = k + 1;
            }
            proof {
                assert(agent.take(k as int) =~= agent);
                assert(pairs == population_pairs(ms.take(i + 1)));
            }
            i = i + 1;
        }
        proof {
            assert(ms.take(i as int) =~= ms);
        }
        let ghost candidates = population_candidates(ms);
        let agents = trackers.len();
        let mut gaps: Vec<InferredGap> = Vec::new();
        let mut j: usize = 0;
        while j < keys_l.len()
            invariant
                ms == models(trackers@),
                agents == ms.len(),
                pairs == population_pairs(ms),
                candidates == population_candidates(ms),
                keys_l@.len() == keys_r@.len(),
                keys_l@.len() == counts@.len(),
                table_pairs(keys_l@, keys_r@) == first_occurrences(pairs),
                forall|m: int|
                    0 <= m < counts@.len() ==> #[trigger] counts@[m] == pairs.to_multiset().count(
                        table_pairs(keys_l@, keys_r@)[m],
                    ),
                j <= keys_l@.len(),
                gap_views(gaps@) == keep_confident(candidates.take(j as int), self.confidence_threshold),
            decreases keys_l@.len() - j,
        {
            let c = counts[j];
            let confidence = if c <= agents {
                Fraction { num: c as u64, den: agents as u64 }
            } else {
                Fraction { num: 1, den: 1 }
            };
            let gap = InferredGap {
                left: keys_l[j].clone(),
                right: keys_r[j].clone(),
                inferred: generate_inferred(keys_l[j].as_str(), keys_r[j].as_str()),
                confidence,
            };
            proof {
                assert(candidates.take(j + 1).drop_last() =~= candidates.take(j as int));
                assert(table_pairs(keys_l@, keys_r@)[j as int] == (keys_l@[j as int]@, keys_r@[j as int]@));
                assert(candidates[j as int] == gap@);
            }
            if confidence.at_least(&self.confidence_threshold) {
                let ghost prev = gaps@;
                gaps.push(gap);
                proof {
                    assert(gap_views(gaps@) =~= gap_views(prev).push(gap@));
                }
            }
            j = j + 1;
        }
        proof {
            assert(candidates.take(j as int) =~= candidates);
        }
        gaps
    }
}

/// Every pair of a list appears among its first occurrences, and only pairs
/// of the list do; and none appears twice.
pub proof fn lemma_first_occurrences_contains(s: Seq<LabelPair>, p: LabelPair)
    ensures
        s.contains(p) <==> first_occurrences(s).contains(p),
        first_occurrences(s).no_duplicates(),
    decreases s.len(),
{
    if s.len() > 0 {
        let t = s.drop_last();
        lemma_first_occurrences_contains(t, p);
        lemma_first_occurrences_contains(t, s.last());
        let d = first_occurrences(t);
        let f = first_occurrences(s);
        if !d.contains(s.last()) {
            assert(f == d.push(s.last()));
            assert(f[d.len() as int] == s.last());
        } else {
            assert(f == d);
        }
        if s.contains(p) {
            let m = choose|m: int| 0 <= m < s.len() && s[m] == p;
            if m < s.len() - 1 {
                assert(t[m] == p);
                assert(t.contains(p));
                let q = choose|q: int| 0 <= q < d.len() && d[q] == p;
                assert(f[q] == p);
            }
        }
        if f.contains(p) {
            let m = choose|m: int| 0 <= m < f.len() && f[m] == p;
            if m < d.len() {
                assert(d[m] == p);
                assert(d.contains(p));
                let q = choose|q: int| 0 <= q < t.len() && t[q] == p;
                assert(s[q] == p);
            } else {
                assert(s[s.len() - 1] == p);
            }
        }
    }
}


/// Every gap kept reaches the threshold, and every candidate that reaches it
/// is kept.
pub proof fn law_kept_reach_threshold(gs: Seq<GapModel>, threshold: Fraction)
    ensures
        forall|k: int|
            0 <= k < keep_confident(gs, threshold).len() ==> threshold.le_value(
                (#[trigger] keep_confident(gs, threshold)[k]).confidence,
            ),
        forall|k: int|
            0 <= k < gs.len() && threshold.le_value((#[trigger] gs[k]).confidence)
                ==> keep_confident(gs, threshold).contains(gs[k]),
        keep_confident(gs, threshold).len() <= gs.len(),
    decreases gs.len(),
{
    if gs.len() > 0 {
        law_kept_reach_threshold(gs.drop_last(), threshold);
        let rest = keep_confident(gs.drop_last(), threshold);
        assert forall|k: int|
            0 <= k < gs.len() && threshold.le_value((#[trigger] gs[k]).confidence)
                implies keep_confident(gs, threshold).contains(gs[k]) by {
            if k < gs.len() - 1 {
                assert(gs.drop_last()[k] == gs[k]);
                assert(rest.contains(gs[k]));
                let m = choose|m: int| 0 <= m < rest.len() && rest[m] == gs[k];
                assert(keep_confident(gs, threshold)[m] == gs[k]);
            } else {
                assert(keep_confident(gs, threshold)[rest.len() as int] == gs[k]);
            }
        }
    }
}

/// Gap confidence lies between zero and one, and is zero for identical
/// labels (for labels whose byte lengths fit in a `usize`, as every
/// string's does).
pub proof fn law_gap_confidence_bounds(l: Seq<char>, r: Seq<char>)
    requires
        byte_len(l) <= usize::MAX,
        byte_len(r) <= usize::MAX,
    ensures
        gap_confidence(l, r).den > 0,
        gap_confidence(l, r).num <= gap_confidence(l, r).den,
        gap_confidence(l, l).num == 0,
{
    lemma_byte_len_at_least_chars(l);
    lemma_byte_len_at_least_chars(r);
    lemma_matches_bound(l, r, min_nat(l.len(), r.len()));
}

/// Population confidence lies between zero and one for every candidate gap
/// of a non-empty population.
pub proof fn law_population_confidence_bounds(ts: Seq<TrackerModel>)
    requires
        ts.len() > 0,
        ts.len() <= u64::MAX,
    ensures
        forall|k: int|
            0 <= k < population_candidates(ts).len() ==> {
                let c = (#[trigger] population_candidates(ts)[k]).confidence;
                c.den > 0 && c.num <= c.den
            },
{
}


/// Batch inference over `n` avoided options examines the `n - 1` pairs of
/// neighbours in sorted order: candidate `k` lies between the `k`-th label
/// in order and the next one.
pub proof fn law_agent_candidates_sorted(s: Seq<Seq<char>>)
    ensures
        adjacent_gaps(sorted_labels(s)).len() == if s.len() < 2 {
            0
        } else {
            s.len() - 1
        },
        forall|k: int|
            0 <= k < adjacent_gaps(sorted_labels(s)).len() ==> {
                let g = #[trigger] adjacent_gaps(sorted_labels(s))[k];
                &&& g.left == sorted_labels(s)[k]
                &&& g.right == sorted_labels(s)[k + 1]
                &&& crate::text::lex_le(g.left, g.right)
            },
{
    crate::text::lemma_sorted_labels_from(s);
    crate::text::law_sorted_in_order(s);
    assert forall|k: int| 0 <= k < adjacent_gaps(sorted_labels(s)).len() implies crate::text::lex_le(
        (#[trigger] adjacent_gaps(sorted_labels(s))[k]).left,
        adjacent_gaps(sorted_labels(s))[k].right,
    ) by {
        assert(crate::text::lex_le(sorted_labels(s)[k], sorted_labels(s)[k + 1]));
    }
}


/// The confidence between two different labels counts every position,
/// below the length of the shorter, where both hold the same character
/// (wherever it stands, after a difference too), over the byte length of
/// the longer label.
pub proof fn law_confidence_counts_matching_positions(l: Seq<char>, r: Seq<char>)
    requires
        l != r,
        byte_len(l) <= u64::MAX,
        byte_len(r) <= u64::MAX,
    ensures
        gap_confidence(l, r).num == Set::new(
            |i: int| 0 <= i < min_nat(l.len(), r.len()) && l[i] == r[i],
        ).len(),
        gap_confidence(l, r).den == if byte_len(l) >= byte_len(r) {
            byte_len(l)
        } else {
            byte_len(r)
        },
{
    lemma_byte_len_at_least_chars(l);
    lemma_byte_len_at_least_chars(r);
    crate::text::lemma_matches_are_positions(l, r, min_nat(l.len(), r.len()));
    lemma_matches_bound(l, r, min_nat(l.len(), r.len()));
    if byte_len(l) == 0 && byte_len(r) == 0 {
        assert(l =~= r);
    }
}


/// Between two labels that share their first `k` characters (all ASCII) and
/// then differ, or of which one ends there while the other goes on, the
/// inferred label is the shared prefix followed, in brackets, by the whole
/// rest of the left label, the arrow, and the whole rest of the right label;
/// its length is `k` plus both remainders plus three.
pub proof fn law_inferred_shows_whole_remainders(l: Seq<char>, r: Seq<char>, k: nat)
    requires
        k <= l.len(),
        k <= r.len(),
        l.take(k as int) == r.take(k as int),
        k == l.len() || k == r.len() || l[k as int] != r[k as int],
        k < l.len() || k < r.len(),
        forall|i: int| 0 <= i < k ==> (l[i] as u32) < 128,
    ensures
        inferred_label(l, r) == l.take(k as int) + "["@ + l.skip(k as int) + "\u{2194}"@ + r.skip(
            k as int,
        ) + "]"@,
        inferred_label(l, r).len() == k + (l.len() - k) + (r.len() - k) + 3,
{
    crate::text::lemma_common_prefix_is(l, r, k);
    let p = l.take(k as int);
    assert forall|i: int| 0 <= i < p.len() implies (p[i] as u32) < 128 by {
        assert(p[i] == l[i]);
    }
    crate::text::lemma_ascii_byte_len(p);
    reveal_strlit("[");
    reveal_strlit("]");
    reveal_strlit("\u{2194}");
}

/// A pair of neighbours that every agent of a population shows occurs at
/// least once per agent over the population.
proof fn lemma_shown_by_every_agent(ts: Seq<TrackerModel>, p: LabelPair)
    requires
        forall|i: int| 0 <= i < ts.len() ==> (#[trigger] agent_pairs(ts[i])).contains(p),
    ensures
        population_pairs(ts).to_multiset().count(p) >= ts.len(),
    decreases ts.len(),
{
    broadcast use vstd::multiset::group_multiset_axioms;

    if ts.len() > 0 {
        let t = ts.drop_last();
        assert forall|i: int| 0 <= i < t.len() implies (#[trigger] agent_pairs(t[i])).contains(p) by {
            assert(t[i] == ts[i]);
            assert(agent_pairs(ts[i]).contains(p));
        }
        lemma_shown_by_every_agent(t, p);
        vstd::seq_lib::lemma_multiset_commutative(population_pairs(t), agent_pairs(ts.last()));
        assert(agent_pairs(ts[ts.len() - 1]).contains(p));
        agent_pairs(ts.last()).to_multiset_ensures();
    }
}

/// In a non-empty population, there is a candidate gap for each pair of
/// neighbouring avoided labels that some agent shows, and for no other; the
/// confidence of each is the number of times its pair occurs over all
/// agents divided by the number of agents, at most one. So a pair that every
/// agent shows has confidence one, whatever other pairs the agents show.
pub proof fn law_population_confidence_is_share(ts: Seq<TrackerModel>, p: LabelPair)
    requires
        ts.len() > 0,
        ts.len() <= u64::MAX,
    ensures
        forall|k: int|
            0 <= k < population_candidates(ts).len() ==> {
                let g = #[trigger] population_candidates(ts)[k];
                let c = population_pairs(ts).to_multiset().count((g.left, g.right));
                &&& g.confidence.den > 0
                &&& g.confidence.num * ts.len() == min_nat(c, ts.len()) * g.confidence.den
            },
        population_pairs(ts).contains(p) <==> exists|k: int|
            0 <= k < population_candidates(ts).len() && (#[trigger] population_candidates(
                ts,
            )[k]).left == p.0 && population_candidates(ts)[k].right == p.1,
        (forall|i: int| 0 <= i < ts.len() ==> (#[trigger] agent_pairs(ts[i])).contains(p))
            ==> exists|k: int|
            0 <= k < population_candidates(ts).len() && (#[trigger] population_candidates(
                ts,
            )[k]).left == p.0 && population_candidates(ts)[k].right == p.1
                && population_candidates(ts)[k].confidence.num
                == population_candidates(ts)[k].confidence.den,
{
    let n = ts.len();
    let pairs = population_pairs(ts);
    let keys = first_occurrences(pairs);
    let cands = population_candidates(ts);
    assert forall|k: int| 0 <= k < cands.len() implies {
        let g = #[trigger] cands[k];
        let c = pairs.to_multiset().count((g.left, g.right));
        &&& g.confidence.den > 0
        &&& g.confidence.num * n == min_nat(c, n) * g.confidence.den
    } by {
        let g = cands[k];
        assert((g.left, g.right) == keys[k]);
        let c = pairs.to_multiset().count(keys[k]);
        if c <= n {
            assert(g.confidence.num == c);
            assert(g.confidence.den == n);
            assert(c * n == c * n);
        }
    }
    lemma_first_occurrences_contains(pairs, p);
    if pairs.contains(p) {
        let k = choose|k: int| 0 <= k < keys.len() && keys[k] == p;
        assert(cands[k].left == p.0 && cands[k].right == p.1);
    }
    if exists|k: int| 0 <= k < cands.len() && (#[trigger] cands[k]).left == p.0 && cands[k].right == p.1 {
        let k = choose|k: int| 0 <= k < cands.len() && (#[trigger] cands[k]).left == p.0 && cands[k].right == p.1;
        assert(keys[k] == p);
        assert(keys.contains(p));
    }
    if forall|i: int| 0 <= i < ts.len() ==> (#[trigger] agent_pairs(ts[i])).contains(p) {
        lemma_shown_by_every_agent(ts, p);
        pairs.to_multiset_ensures();
        assert(pairs.contains(p));
        let k = choose|k: int| 0 <= k < keys.len() && keys[k] == p;
        assert(cands[k].left == p.0 && cands[k].right == p.1);
        assert(cands[k].confidence.num == cands[k].confidence.den);
    }
}

} // verus!
