//! The declared directions and evidence levels of progress and monotonicity checks.
use vstd::prelude::*;
use vstd::string::StringExecFns;

verus! {

/// Which way a learning metric should move.
#[derive(Clone, Copy, Debug, Eq, PartialEq)]
pub enum LearningDirection {
    Increase,
    Decrease,
}

impl LearningDirection {
    pub fn to_string(&self) -> (s: String)
        ensures
            *self == LearningDirection::Increase ==> s@ == "increase"@,
            *self == LearningDirection::Decrease ==> s@ == "decrease"@,
    {
        match self {
            LearningDirection::Increase => String::from_str("increase"),
            LearningDirection::Decrease => String::from_str("decrease"),
        }
    }
}

/// The strength of the claim made by a learning-progress receipt.
#[derive(Clone, Copy, Debug, Eq, PartialEq)]
pub enum LearningEvidence {
    /// The caller-supplied observations met their declared progress limits. This
    /// does not prove the population label, generalization, or convergence.
    VerifiedObservations,
}

impl LearningEvidence {
    pub fn to_string(&self) -> (s: String)
        ensures
            s@ == "verified observations"@,
    {
        String::from_str("verified observations")
    }
}

/// Which way an output must move as its ordered input grows.
#[derive(Clone, Copy, Debug, Eq, PartialEq)]
pub enum MonotoneDirection {
    Increasing,
    Decreasing,
}

impl MonotoneDirection {
    pub fn to_string(&self) -> (s: String)
        ensures
            *self == MonotoneDirection::Increasing ==> s@ == "increasing"@,
            *self == MonotoneDirection::Decreasing ==> s@ == "decreasing"@,
    {
        match self {
            MonotoneDirection::Increasing => String::from_str("increasing"),
            MonotoneDirection::Decreasing => String::from_str("decreasing"),
        }
    }
}

} // verus!
