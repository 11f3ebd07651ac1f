//! Negative space core: intelligence measured by what an agent avoids.
//!
//! Every quantity that the model defines as a quotient of counts (the
//! avoidance ratio, coverage, density, gap confidences) is kept here as an
//! exact fraction of integers, so that the rules built on them are proved
//! exactly rather than up to rounding.

use vstd::prelude::*;

pub mod ratio;
pub mod avoidance_tracker;
pub mod labels;
pub mod population;
pub mod batch_analyzer;
pub mod conservation_law;
pub mod text;
pub mod inference_engine;
pub mod negative_space;

pub use population::checked_population_decisions;
pub use ratio::{finite_fractions, Fraction, Ratio};
pub use avoidance_tracker::AvoidanceTracker;
pub use batch_analyzer::{BatchAnalyzer, BatchStatistics};
pub use conservation_law::ConservationLaw;
pub use inference_engine::{InferenceEngine, InferredGap};
pub use negative_space::NegativeSpace;
pub use text::string_distance;

verus! {

/// The empirically observed avoidance ratio (avoid:choose), 294:1.
pub const AVOIDANCE_RATIO: u64 = 294;

/// Numerator of the maximum acceptable spread (standard deviation) of
/// avoidance ratios for the conservation law to hold.
pub const CONSERVATION_THRESHOLD_NUM: u64 = 1;

/// Denominator of the maximum acceptable spread of avoidance ratios: the
/// threshold is one hundredth.
pub const CONSERVATION_THRESHOLD_DEN: u64 = 100;

/// The maximum acceptable spread of avoidance ratios, as a fraction.
pub fn conservation_threshold() -> (t: Fraction)
    ensures
        t.num == CONSERVATION_THRESHOLD_NUM,
        t.den == CONSERVATION_THRESHOLD_DEN,
        t.wf(),
{
    Fraction::new(CONSERVATION_THRESHOLD_NUM, CONSERVATION_THRESHOLD_DEN)
}

/// A decision made by an agent.
#[derive(Debug)]
pub enum Decision {
    /// The agent avoided this option.
    Avoid(String),
    /// The agent chose this option.
    Choose(String),
}

/// What a decision means: which kind it is and the label it carries.
pub enum DecisionModel {
    Avoid(Seq<char>),
    Choose(Seq<char>),
}

impl DecisionModel {
    pub open spec fn label(self) -> Seq<char> {
        match self {
            DecisionModel::Avoid(s) => s,
            DecisionModel::Choose(s) => s,
        }
    }
}

impl View for Decision {
    type V = DecisionModel;

    open spec fn view(&self) -> DecisionModel {
        match self {
            Decision::Avoid(s) => DecisionModel::Avoid(s@),
            Decision::Choose(s) => DecisionModel::Choose(s@),
        }
    }
}

impl Clone for Decision {
    fn clone(&self) -> (res: Self)
        ensures
            res@ == self@,
    {
        match self {
            Decision::Avoid(s) => Decision::Avoid(s.clone()),
            Decision::Choose(s) => Decision::Choose(s.clone()),
        }
    }
}

/// Whether two string slices hold the same characters.
fn same_str(a: &str, b: &str) -> (res: bool)
    ensures
        res == (a@ == b@),
{
    let a = a.to_owned();
    let b = b.to_owned();
    a == b
}

impl PartialEq for Decision {
    fn eq(&self, other: &Self) -> (res: bool) {
        let same_kind = self.is_avoid() == other.is_avoid();
        let same_label = same_str(self.label(), other.label());
        same_kind && same_label
    }
}

impl vstd::std_specs::cmp::PartialEqSpecImpl for Decision {
    open spec fn obeys_eq_spec() -> bool {
        true
    }

    open spec fn eq_spec(&self, other: &Decision) -> bool {
        self@ == other@
    }
}

impl Decision {
    /// Returns true if this is an avoidance.
    pub fn is_avoid(&self) -> (res: bool)
        ensures
            res == (self@ is Avoid),
    {
        match self {
            Decision::Avoid(_) => true,
            Decision::Choose(_) => false,
        }
    }

    /// Returns true if this is a choice.
    pub fn is_choose(&self) -> (res: bool)
        ensures
            res == (self@ is Choose),
    {
        match self {
            Decision::Avoid(_) => false,
            Decision::Choose(_) => true,
        }
    }

    /// Extract the label.
    pub fn label(&self) -> (res: &str)
        ensures
            res@ == self@.label(),
    {
        match self {
            Decision::Avoid(s) => s.as_str(),
            Decision::Choose(s) => s.as_str(),
        }
    }
}

} // verus!
