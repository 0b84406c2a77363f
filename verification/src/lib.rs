use vstd::prelude::*;

pub mod dataset;
pub mod eval;
pub mod features;
pub mod model;
pub mod store;
pub mod trainer;

verus! {

/// The classifier's error taxonomy: a weight file whose byte length is not a
/// whole number of values, a feature/weight length mismatch, and an empty
/// evaluation range.
#[derive(Clone, Copy, Debug, PartialEq, Eq, Structural)]
pub enum ClassifierError {
    CorruptFile,
    DimensionMismatch,
    EmptyRange,
}

/// The class of a sample: in the probabilistic model `Cat` is labelled 0 and
/// `Dog` 1; in the sign model `Cat` is labelled -1 and `Dog` +1.
#[derive(Clone, Copy, Debug, PartialEq, Eq, Structural)]
pub enum Label {
    Cat,
    Dog,
}

} // verus!
