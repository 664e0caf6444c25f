//! The prediction engine's state: a vector database and a bounded history
//! of observed state vectors.
use vstd::prelude::*;
use crate::vector_db::VectorDb;
use crate::window::{recent, Window};

verus! {

/// The state of a joint-embedding prediction engine.
#[derive(Debug, Clone)]
pub struct JepaEngine<T> {
    db: VectorDb<T>,
    history: Window<Vec<T>>,
}

impl<T> JepaEngine<T> {
    /// The observations kept, oldest first.
    pub closed spec fn history(&self) -> Seq<Vec<T>> {
        self.history.items()
    }

    /// How many observations the history keeps at most.
    pub closed spec fn max_history(&self) -> nat {
        self.history.cap()
    }

    /// The engine's vector database.
    pub closed spec fn database(&self) -> VectorDb<T> {
        self.db
    }

    /// An engine with an empty database and a history of capacity 10.
    pub fn new() -> (e: Self)
        ensures
            e.history() == Seq::<Vec<T>>::empty(),
            e.max_history() == 10,
            e.database().vectors() == Seq::<Seq<T>>::empty(),
            e.database().ids() == Seq::<Seq<char>>::empty(),
    {
        JepaEngine { db: VectorDb::new(), history: Window::new(10) }
    }

    /// An engine with an empty database and a history of capacity
    /// `max_history`.
    pub fn with_capacity(max_history: usize) -> (e: Self)
        ensures
            e.history() == Seq::<Vec<T>>::empty(),
            e.max_history() == max_history,
            e.database().vectors() == Seq::<Seq<T>>::empty(),
            e.database().ids() == Seq::<Seq<char>>::empty(),
    {
        JepaEngine { db: VectorDb::new(), history: Window::new(max_history) }
    }

    /// Observe a new state vector: it joins the history, and the oldest
    /// observation leaves when the history is over capacity.
    pub fn observe(&mut self, vector: Vec<T>)
        ensures
            final(self).history() == recent(old(self).history().push(vector), old(self).max_history()),
            final(self).history().len() <= final(self).max_history(),
            final(self).history().len() == if old(self).history().len() + 1 <= old(self).max_history() {
                old(self).history().len() + 1
            } else {
                old(self).max_history()
            },
            forall|i: int|
                0 <= i < final(self).history().len() ==> #[trigger] final(self).history()[i] == old(
                    self,
                ).history().push(vector)[old(self).history().len() + 1 - final(self).history().len() + i],
            final(self).max_history() == old(self).max_history(),
            final(self).database() == old(self).database(),
    {
        self.history.push(vector);
    }

    /// The two most recent observations `(previous, last)` from which the
    /// next state is extrapolated, or `None` while fewer than two have been
    /// kept.
    pub fn last_two(&self) -> (r: Option<(&Vec<T>, &Vec<T>)>)
        ensures
            r is Some == (self.history().len() >= 2),
            r matches Some((prev, last)) ==> {
                &&& *prev == self.history()[self.history().len() - 2]
                &&& *last == self.history()[self.history().len() - 1]
            },
    {
        let h = self.history.as_vec();
        let n = h.len();
        if n < 2 {
            None
        } else {
            Some((&h[n - 2], &h[n - 1]))
        }
    }

    pub fn db(&self) -> (r: &VectorDb<T>)
        ensures
            *r == self.database(),
    {
        &self.db
    }

    pub fn db_mut(&mut self) -> (r: &mut VectorDb<T>)
        ensures
            *r == old(self).database(),
            final(self).database() == *final(r),
            final(self).history() == old(self).history(),
            final(self).max_history() == old(self).max_history(),
    {
        &mut self.db
    }

    pub fn history_len(&self) -> (n: usize)
        ensures
            n == self.history().len(),
            n <= self.max_history(),
    {
        self.history.len()
    }

    pub fn clear_history(&mut self)
        ensures
            final(self).history() == Seq::<Vec<T>>::empty(),
            final(self).max_history() == old(self).max_history(),
            final(self).database() == old(self).database(),
    {
        self.history.clear();
    }
}


impl<T> Default for JepaEngine<T> {
    /// An engine with an empty database and a history of capacity 0, which
    /// keeps no observation.
    fn default() -> (e: Self)
        ensures
            e.history() == Seq::<Vec<T>>::empty(),
            e.max_history() == 0,
            e.database().vectors() == Seq::<Seq<T>>::empty(),
            e.database().ids() == Seq::<Seq<char>>::empty(),
    {
        JepaEngine::with_capacity(0)
    }
}

} // verus!
