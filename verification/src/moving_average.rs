//! The state of a moving-average forecaster: a window of the most recent
//! state vectors.
use vstd::prelude::*;
use crate::window::{push_bounded, recent};

verus! {

/// The capacity a moving-average window gets when asked for `window_size`:
/// at least one.
pub open spec fn effective_window(window_size: nat) -> nat {
    if window_size == 0 { 1 } else { window_size }
}

/// The observations a predictor made by `new(window_size)` holds after
/// `pushes`, pushed in order.
pub open spec fn observations_after<T>(pushes: Seq<Vec<T>>, window_size: nat) -> Seq<Vec<T>>
    decreases pushes.len(),
{
    if pushes.len() == 0 {
        Seq::empty()
    } else {
        recent(observations_after(pushes.drop_last(), window_size).push(pushes.last()), effective_window(window_size))
    }
}

/// A window size of at least one is kept as asked; a window size of 0
/// becomes 1.
pub proof fn lemma_effective_window(window_size: nat)
    ensures
        window_size >= 1 ==> effective_window(window_size) == window_size,
        window_size == 0 ==> effective_window(window_size) == 1,
{
}

/// After pushes `pushes` in order, a predictor made by `new(w)` holds
/// exactly the last `min(|pushes|, c)` of them, oldest first, where `c` is
/// `w` (or 1 when `w` is 0): its element `i` is element `|pushes| - len + i`
/// of `pushes`.
pub proof fn lemma_observations_after_is_suffix<T>(pushes: Seq<Vec<T>>, window_size: nat)
    ensures
        observations_after(pushes, window_size).len() == {
            let c: nat = if window_size == 0 { 1 } else { window_size };
            if pushes.len() <= c { pushes.len() } else { c }
        },
        forall|i: int|
            0 <= i < observations_after(pushes, window_size).len() ==> #[trigger] observations_after(pushes, window_size)[i]
                == pushes[pushes.len() - observations_after(pushes, window_size).len() + i],
    decreases pushes.len(),
{
    let c = effective_window(window_size);
    if pushes.len() > 0 {
        let e = pushes.drop_last();
        lemma_observations_after_is_suffix(e, window_size);
        let w = observations_after(e, window_size);
        let t = w.push(pushes.last());
        crate::window::lemma_recent_is_suffix(t, c);
        let r = observations_after(pushes, window_size);
        assert(r == recent(t, c));
        assert forall|i: int| 0 <= i < r.len() implies #[trigger] r[i] == pushes[pushes.len() - r.len() + i] by {
            let k = t.len() - r.len() + i;
            assert(r[i] == t[k]);
            if k < w.len() {
                assert(t[k] == w[k]);
                assert(w[k] == e[e.len() - w.len() + k]);
            } else {
                assert(t[k] == pushes.last());
            }
        }
    }
}

/// One more push extends the sequence as `MovingAveragePredictor::push`
/// changes the window: a predictor of window size `effective_window(w)`
/// holding `observations_after(pushes, w)` holds
/// `observations_after(pushes.push(vector), w)` after `push(vector)`.
pub proof fn lemma_observations_after_push<T>(pushes: Seq<Vec<T>>, window_size: nat, vector: Vec<T>)
    ensures
        observations_after(pushes.push(vector), window_size) == recent(
            observations_after(pushes, window_size).push(vector),
            effective_window(window_size),
        ),
{
    assert(pushes.push(vector).drop_last() =~= pushes);
}

/// A predictor that forecasts the average of its most recent observations.
#[derive(Debug)]
pub struct MovingAveragePredictor<T> {
    window: Vec<Vec<T>>,
    window_size: usize,
}

impl<T> MovingAveragePredictor<T> {
    /// The window never holds more observations than its size.
    #[verifier::type_invariant]
    spec fn fits(&self) -> bool {
        self.window.len() <= self.window_size
    }

    /// The observations averaged, oldest first.
    pub closed spec fn observations(&self) -> Seq<Vec<T>> {
        self.window@
    }

    /// How many observations are averaged at most.
    pub closed spec fn window_size(&self) -> nat {
        self.window_size as nat
    }

    /// A predictor averaging the last `window_size` observations, and at
    /// least the last one.
    pub fn new(window_size: usize) -> (p: Self)
        ensures
            p.observations() == Seq::<Vec<T>>::empty(),
            p.window_size() == effective_window(window_size as nat),
            window_size >= 1 ==> p.window_size() == window_size,
            window_size == 0 ==> p.window_size() == 1,
    {
        let size = if window_size == 0 { 1 } else { window_size };
        MovingAveragePredictor { window: Vec::new(), window_size: size }
    }

    /// Adds an observation; the oldest one leaves when the window is then
    /// over its size.
    pub fn push(&mut self, vector: Vec<T>)
        ensures
            final(self).observations() == recent(old(self).observations().push(vector), old(self).window_size()),
            final(self).observations().len() <= final(self).window_size(),
            final(self).window_size() == old(self).window_size(),
            final(self).observations().len() == if old(self).observations().len() + 1 <= old(self).window_size() {
                old(self).observations().len() + 1
            } else {
                old(self).window_size()
            },
            forall|i: int|
                0 <= i < final(self).observations().len() ==> #[trigger] final(self).observations()[i] == old(
                    self,
                ).observations().push(vector)[old(self).observations().len() + 1 - final(self).observations().len() + i],
    {
        let mut taken = MovingAveragePredictor { window: Vec::new(), window_size: 0 };
        std::mem::swap(self, &mut taken);
        proof {
            use_type_invariant(&taken);
        }
        let MovingAveragePredictor { mut window, window_size } = taken;
        push_bounded(&mut window, vector, window_size);
        *self = MovingAveragePredictor { window, window_size };
    }

    /// The observations a forecast averages, oldest first; a forecast is
    /// made only when there is at least one.
    pub fn window(&self) -> (w: &Vec<Vec<T>>)
        ensures
            w@ == self.observations(),
            w.len() <= self.window_size(),
    {
        proof {
            use_type_invariant(self);
        }
        &self.window
    }
}


impl<T: Clone> Clone for MovingAveragePredictor<T> {
    /// A predictor of the same window size holding clones of the same
    /// observations.
    fn clone(&self) -> (p: Self)
        ensures
            p.window_size() == self.window_size(),
            p.observations().len() == self.observations().len(),
            forall|i: int|
                0 <= i < self.observations().len() ==> cloned::<Vec<T>>(self.observations()[i], #[trigger] p.observations()[i]),
    {
        proof {
            use_type_invariant(self);
        }
        MovingAveragePredictor { window: self.window.clone(), window_size: self.window_size }
    }
}


impl<T> Default for MovingAveragePredictor<T> {
    /// A predictor of window size 0, which keeps no observation.
    fn default() -> (p: Self)
        ensures
            p.observations() == Seq::<Vec<T>>::empty(),
            p.window_size() == 0,
    {
        MovingAveragePredictor { window: Vec::new(), window_size: 0 }
    }
}

} // verus!
