//! The record kept to track conservation of a scalar quantity across
//! predictions.
use vstd::prelude::*;

verus! {

/// The values recorded so far, and the total they are expected to sum to.
#[derive(Debug, Clone)]
pub struct ConservationTracker<T> {
    values: Vec<T>,
    pub expected_total: T,
}

impl<T> ConservationTracker<T> {
    /// The values recorded, in order.
    pub closed spec fn recorded(&self) -> Seq<T> {
        self.values@
    }

    /// The total the recorded values are expected to sum to.
    pub closed spec fn expected(&self) -> T {
        self.expected_total
    }

    pub fn new(expected_total: T) -> (t: Self)
        ensures
            t.recorded() == Seq::<T>::empty(),
            t.expected() == expected_total,
    {
        ConservationTracker { values: Vec::new(), expected_total }
    }

    pub fn record(&mut self, value: T)
        ensures
            final(self).recorded() == old(self).recorded().push(value),
            final(self).expected() == old(self).expected(),
    {
        self.values.push(value);
    }

    pub fn count(&self) -> (n: usize)
        ensures
            n == self.recorded().len(),
    {
        self.values.len()
    }

    /// The values a total, a mean or a variance is taken over, in order.
    pub fn values(&self) -> (v: &Vec<T>)
        ensures
            v@ == self.recorded(),
    {
        &self.values
    }

    /// Forgets the recorded values; the expected total stays.
    pub fn reset(&mut self)
        ensures
            final(self).recorded() == Seq::<T>::empty(),
            final(self).expected() == old(self).expected(),
    {
        self.values.clear();
    }
}

impl<T: Default> Default for ConservationTracker<T> {
    /// No value recorded, and the type's default as the expected total.
    fn default() -> (t: Self)
        ensures
            t.recorded() == Seq::<T>::empty(),
    {
        ConservationTracker { values: Vec::new(), expected_total: T::default() }
    }
}

} // verus!
