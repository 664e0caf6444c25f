//! A bounded first-in first-out window of observations.
use vstd::prelude::*;

verus! {

/// The last `cap` elements of `s` (all of `s` when it is shorter).
pub open spec fn recent<A>(s: Seq<A>, cap: nat) -> Seq<A> {
    if s.len() > cap {
        s.subrange(s.len() - cap, s.len() as int)
    } else {
        s
    }
}

/// Appends `item`; when the window then holds more than `cap` items, the
/// oldest one is dropped.
pub(crate) fn push_bounded<T>(items: &mut Vec<T>, item: T, cap: usize)
    requires
        old(items).len() <= cap,
    ensures
        final(items)@ == recent(old(items)@.push(item), cap as nat),
        final(items).len() <= cap,
        final(items).len() == if old(items).len() + 1 <= cap { old(items).len() + 1 } else { cap as int },
        forall|i: int|
            0 <= i < final(items).len() ==> #[trigger] final(items)@[i] == old(items)@.push(item)[old(items).len() + 1
                - final(items).len() + i],
{
    items.push(item);
    if items.len() > cap {
        items.remove(0);
    }
    proof {
        let s = old(items)@.push(item);
        if s.len() > cap {
            assert(items@ =~= s.subrange(s.len() - cap, s.len() as int));
        }
    }
}

/// `recent(s, cap)` is the suffix of `s` of length `min(|s|, cap)`: its
/// element `i` is element `|s| - len + i` of `s`.
pub proof fn lemma_recent_is_suffix<A>(s: Seq<A>, cap: nat)
    ensures
        recent(s, cap).len() == if s.len() <= cap { s.len() } else { cap },
        forall|i: int|
            0 <= i < recent(s, cap).len() ==> #[trigger] recent(s, cap)[i] == s[s.len() - recent(s, cap).len() + i],
{
}

/// The observations kept after observing `h` in order, starting from an
/// empty window of capacity `cap`, as `push` changes the window step by
/// step.
pub open spec fn observed_after<A>(h: Seq<A>, cap: nat) -> Seq<A>
    decreases h.len(),
{
    if h.len() == 0 {
        Seq::empty()
    } else {
        recent(observed_after(h.drop_last(), cap).push(h.last()), cap)
    }
}

/// One more observation extends the sequence as `Window::push` changes the
/// window: a window holding `observed_after(h, cap)` holds
/// `observed_after(h.push(x), cap)` after `push(x)`.
pub proof fn lemma_observed_after_push<A>(h: Seq<A>, x: A, cap: nat)
    ensures
        observed_after(h.push(x), cap) == recent(observed_after(h, cap).push(x), cap),
{
    assert(h.push(x).drop_last() =~= h);
}

/// After observing `h` in order, a window of capacity `cap` holds exactly
/// the last `min(|h|, cap)` observations of `h`, oldest first: its element
/// `i` is element `|h| - len + i` of `h`.
pub proof fn lemma_observed_after_is_suffix<A>(h: Seq<A>, cap: nat)
    ensures
        observed_after(h, cap).len() == if h.len() <= cap { h.len() } else { cap },
        forall|i: int|
            0 <= i < observed_after(h, cap).len() ==> #[trigger] observed_after(h, cap)[i] == h[h.len()
                - observed_after(h, cap).len() + i],
    decreases h.len(),
{
    if h.len() > 0 {
        let e = h.drop_last();
        lemma_observed_after_is_suffix(e, cap);
        let w = observed_after(e, cap);
        let t = w.push(h.last());
        lemma_recent_is_suffix(t, cap);
        let r = observed_after(h, cap);
        assert(r == recent(t, cap));
        assert forall|i: int| 0 <= i < r.len() implies #[trigger] r[i] == h[h.len() - r.len() + i] by {
            let k = t.len() - r.len() + i;
            assert(r[i] == t[k]);
            if k < w.len() {
                assert(t[k] == w[k]);
                assert(w[k] == e[e.len() - w.len() + k]);
            } else {
                assert(t[k] == h.last());
            }
        }
    }
}

/// With room for at least two observations, after observing `h` (at least
/// two observations) the last two kept are the last two of `h`.
pub proof fn lemma_observed_after_last_two<A>(h: Seq<A>, cap: nat)
    requires
        cap >= 2,
        h.len() >= 2,
    ensures
        observed_after(h, cap).len() >= 2,
        observed_after(h, cap)[observed_after(h, cap).len() - 2] == h[h.len() - 2],
        observed_after(h, cap)[observed_after(h, cap).len() - 1] == h[h.len() - 1],
{
    lemma_observed_after_is_suffix(h, cap);
    let r = observed_after(h, cap);
    assert(r[r.len() - 2] == h[h.len() - r.len() + r.len() - 2]);
    assert(r[r.len() - 1] == h[h.len() - r.len() + r.len() - 1]);
}

/// Observing one more element keeps exactly the most recent `cap`
/// observations: if a window holds the last `cap` elements of a history,
/// pushing the next element leaves it holding the last `cap` elements of
/// the extended history.
pub proof fn lemma_push_keeps_recent<A>(history: Seq<A>, item: A, cap: nat)
    ensures
        recent(recent(history, cap).push(item), cap) == recent(history.push(item), cap),
{
    let w = recent(history, cap);
    let h2 = history.push(item);
    if history.len() > cap {
        assert(recent(w.push(item), cap) =~= recent(h2, cap));
    } else {
        assert(w == history);
    }
}

/// With room for at least one observation, the newest observation is always
/// kept, as the last one.
pub proof fn lemma_newest_is_kept<A>(history: Seq<A>, item: A, cap: nat)
    requires
        cap >= 1,
    ensures
        recent(history.push(item), cap).len() >= 1,
        recent(history.push(item), cap).last() == item,
{
}

/// A window that keeps the most recent observations, at most `cap` of them,
/// oldest first.
#[derive(Debug)]
pub struct Window<T> {
    items: Vec<T>,
    cap: usize,
}

impl<T> Window<T> {
    #[verifier::type_invariant]
    spec fn fits(&self) -> bool {
        self.items.len() <= self.cap
    }

    /// The observations kept, oldest first.
    pub closed spec fn items(&self) -> Seq<T> {
        self.items@
    }

    /// How many observations the window keeps at most.
    pub closed spec fn cap(&self) -> nat {
        self.cap as nat
    }

    /// An empty window of capacity `cap`.
    pub fn new(cap: usize) -> (w: Self)
        ensures
            w.items() == Seq::<T>::empty(),
            w.cap() == cap,
    {
        Window { items: Vec::new(), cap }
    }

    /// Adds an observation; the oldest one leaves when the window is then
    /// over capacity.
    pub fn push(&mut self, item: T)
        ensures
            final(self).items() == recent(old(self).items().push(item), old(self).cap()),
            final(self).items().len() <= final(self).cap(),
            final(self).cap() == old(self).cap(),
            final(self).items().len() == if old(self).items().len() + 1 <= old(self).cap() {
                old(self).items().len() + 1
            } else {
                old(self).cap()
            },
            forall|i: int|
                0 <= i < final(self).items().len() ==> #[trigger] final(self).items()[i] == old(self).items().push(
                    item,
                )[old(self).items().len() + 1 - final(self).items().len() + i],
    {
        proof {
            use_type_invariant(&*self);
        }
        let mut kept: Vec<T> = Vec::new();
        std::mem::swap(&mut kept, &mut self.items);
        push_bounded(&mut kept, item, self.cap);
        self.items = kept;
    }

    /// The observations kept, oldest first.
    pub fn as_vec(&self) -> (v: &Vec<T>)
        ensures
            v@ == self.items(),
            v.len() <= self.cap(),
    {
        proof {
            use_type_invariant(self);
        }
        &self.items
    }

    pub fn len(&self) -> (n: usize)
        ensures
            n == self.items().len(),
            n <= self.cap(),
    {
        proof {
            use_type_invariant(self);
        }
        self.items.len()
    }

    /// Forgets every observation; the capacity stays.
    pub fn clear(&mut self)
        ensures
            final(self).items() == Seq::<T>::empty(),
            final(self).cap() == old(self).cap(),
    {
        self.items = Vec::new();
    }
}


impl<T: Clone> Clone for Window<T> {
    /// A window of the same capacity holding clones of the same
    /// observations.
    fn clone(&self) -> (w: Self)
        ensures
            w.cap() == self.cap(),
            w.items().len() == self.items().len(),
            forall|i: int| 0 <= i < self.items().len() ==> cloned::<T>(self.items()[i], #[trigger] w.items()[i]),
    {
        proof {
            use_type_invariant(self);
        }
        Window { items: self.items.clone(), cap: self.cap }
    }
}

} // verus!
