//! A prediction produced by the engine.
use vstd::prelude::*;

verus! {

/// A predicted state vector, how confident the predictor is in it, and the
/// database entry it was taken from, when it was.
#[derive(Debug, Clone, PartialEq)]
pub struct Prediction<T> {
    pub predicted_vector: Vec<T>,
    pub confidence: T,
    pub source_index: Option<usize>,
}

impl<T> Prediction<T> {
    /// The same prediction, marked as taken from database entry `index`.
    pub fn with_source(self, index: usize) -> (p: Self)
        ensures
            p.source_index == Some(index),
            p.predicted_vector == self.predicted_vector,
            p.confidence == self.confidence,
    {
        let mut p = self;
        p.source_index = Some(index);
        p
    }
}

} // verus!
