//! Moving-average forecasting for several independent, named channels.
use vstd::prelude::*;
use crate::moving_average::{effective_window, observations_after, MovingAveragePredictor};
use crate::window::recent;

verus! {

/// One moving-average predictor per channel name.
#[derive(Debug)]
pub struct BatchPredictor<T> {
    channels: Vec<(String, MovingAveragePredictor<T>)>,
    window_size: usize,
}

/// Whether the channel at position `i` of `entries` is named `name`.
pub open spec fn names_at<T>(entries: Seq<(String, MovingAveragePredictor<T>)>, i: int, name: Seq<char>) -> bool {
    0 <= i < entries.len() && entries[i].0@ == name
}

/// No channel name occurs twice in `entries`.
pub open spec fn distinct_names<T>(entries: Seq<(String, MovingAveragePredictor<T>)>) -> bool {
    forall|i: int, j: int|
        0 <= i < j < entries.len() ==> #[trigger] entries[i].0@ != #[trigger] entries[j].0@
}

/// The observations of every channel, by channel name.
pub open spec fn windows_of<T>(entries: Seq<(String, MovingAveragePredictor<T>)>) -> Map<Seq<char>, Seq<Vec<T>>> {
    Map::new(
        |name: Seq<char>| exists|i: int| names_at(entries, i, name),
        |name: Seq<char>| entries[choose|i: int| names_at(entries, i, name)].1.observations(),
    )
}

/// What a channel held before its next observation: nothing when the
/// channel is new.
pub open spec fn held<T>(windows: Map<Seq<char>, Seq<Vec<T>>>, name: Seq<char>) -> Seq<Vec<T>> {
    if windows.contains_key(name) { windows[name] } else { Seq::empty() }
}

/// What a channel held is its window when the channel is open, and nothing
/// otherwise.
pub proof fn lemma_held<T>(windows: Map<Seq<char>, Seq<Vec<T>>>, name: Seq<char>)
    ensures
        windows.contains_key(name) ==> held(windows, name) == windows[name],
        !windows.contains_key(name) ==> held(windows, name).len() == 0,
{
}

proof fn lemma_name_unique<T>(entries: Seq<(String, MovingAveragePredictor<T>)>, i: int, j: int, name: Seq<char>)
    requires
        distinct_names(entries),
        names_at(entries, i, name),
        names_at(entries, j, name),
    ensures
        i == j,
{
    if i < j {
        assert(entries[i].0@ != entries[j].0@);
    } else if j < i {
        assert(entries[j].0@ != entries[i].0@);
    }
}

proof fn lemma_windows_at<T>(entries: Seq<(String, MovingAveragePredictor<T>)>, i: int)
    requires
        distinct_names(entries),
        0 <= i < entries.len(),
    ensures
        windows_of(entries).contains_key(entries[i].0@),
        windows_of(entries)[entries[i].0@] == entries[i].1.observations(),
{
    let name = entries[i].0@;
    assert(names_at(entries, i, name));
    let c = choose|c: int| names_at(entries, c, name);
    lemma_name_unique(entries, c, i, name);
}

/// Replacing the predictor of an existing channel changes that channel's
/// window only.
proof fn lemma_windows_replace<T>(
    entries: Seq<(String, MovingAveragePredictor<T>)>,
    i: int,
    entry: (String, MovingAveragePredictor<T>),
)
    requires
        distinct_names(entries),
        0 <= i < entries.len(),
        entry.0@ == entries[i].0@,
    ensures
        distinct_names(entries.update(i, entry)),
        windows_of(entries.update(i, entry)) == windows_of(entries).insert(entry.0@, entry.1.observations()),
{
    let e2 = entries.update(i, entry);
    assert(distinct_names(e2)) by {
        assert forall|a: int, b: int| 0 <= a < b < e2.len() implies #[trigger] e2[a].0@ != #[trigger] e2[b].0@ by {
            assert(entries[a].0@ != entries[b].0@);
        }
    }
    let w1 = windows_of(entries);
    let w2 = windows_of(e2);
    let target = w1.insert(entry.0@, entry.1.observations());
    assert forall|name: Seq<char>| w2.contains_key(name) <==> target.contains_key(name) by {
        if w2.contains_key(name) {
            let c = choose|c: int| names_at(e2, c, name);
            if c != i {
                assert(names_at(entries, c, name));
            }
        }
        if w1.contains_key(name) {
            let c = choose|c: int| names_at(entries, c, name);
            assert(names_at(e2, c, name));
        }
        if name == entry.0@ {
            assert(names_at(e2, i, name));
        }
    }
    assert forall|name: Seq<char>| #[trigger] w2.contains_key(name) implies w2[name] == target[name] by {
        let c2 = choose|c: int| names_at(e2, c, name);
        if name == entry.0@ {
            lemma_name_unique(e2, c2, i, name);
        } else {
            assert(c2 != i);
            assert(names_at(entries, c2, name));
            let c1 = choose|c: int| names_at(entries, c, name);
            lemma_name_unique(entries, c1, c2, name);
        }
    }
    assert(w2 =~= target);
}

/// Opening a new channel adds that channel's window only.
proof fn lemma_windows_append<T>(
    entries: Seq<(String, MovingAveragePredictor<T>)>,
    entry: (String, MovingAveragePredictor<T>),
)
    requires
        distinct_names(entries),
        forall|i: int| !names_at(entries, i, entry.0@),
    ensures
        distinct_names(entries.push(entry)),
        windows_of(entries.push(entry)) == windows_of(entries).insert(entry.0@, entry.1.observations()),
{
    let e2 = entries.push(entry);
    let n = entries.len() as int;
    assert(distinct_names(e2)) by {
        assert forall|a: int, b: int| 0 <= a < b < e2.len() implies #[trigger] e2[a].0@ != #[trigger] e2[b].0@ by {
            if b == n {
                assert(!names_at(entries, a, entry.0@));
            } else {
                assert(entries[a].0@ != entries[b].0@);
            }
        }
    }
    let w1 = windows_of(entries);
    let w2 = windows_of(e2);
    let target = w1.insert(entry.0@, entry.1.observations());
    assert forall|name: Seq<char>| w2.contains_key(name) <==> target.contains_key(name) by {
        if w2.contains_key(name) {
            let c = choose|c: int| names_at(e2, c, name);
            if c != n {
                assert(names_at(entries, c, name));
            }
        }
        if w1.contains_key(name) {
            let c = choose|c: int| names_at(entries, c, name);
            assert(names_at(e2, c, name));
        }
        if name == entry.0@ {
            assert(names_at(e2, n, name));
        }
    }
    assert forall|name: Seq<char>| #[trigger] w2.contains_key(name) implies w2[name] == target[name] by {
        let c2 = choose|c: int| names_at(e2, c, name);
        if name == entry.0@ {
            lemma_name_unique(e2, c2, n, name);
        } else {
            assert(c2 != n);
            assert(names_at(entries, c2, name));
            let c1 = choose|c: int| names_at(entries, c, name);
            lemma_name_unique(entries, c1, c2, name);
        }
    }
    assert(w2 =~= target);
}

/// The windows a batch predictor made by `new(window_size)` holds after
/// `pushes` (pairs of a channel name and a vector), pushed in order.
pub open spec fn windows_after<T>(pushes: Seq<(Seq<char>, Vec<T>)>, window_size: nat) -> Map<Seq<char>, Seq<Vec<T>>>
    decreases pushes.len(),
{
    if pushes.len() == 0 {
        Map::empty()
    } else {
        let before = windows_after(pushes.drop_last(), window_size);
        let (channel, vector) = pushes.last();
        before.insert(channel, recent(held(before, channel).push(vector), effective_window(window_size)))
    }
}

/// One more push extends the sequence as `BatchPredictor::push` changes the
/// windows: a predictor holding `windows_after(pushes, w)` holds
/// `windows_after(pushes.push((channel, vector)), w)` after
/// `push(channel, vector)`.
pub proof fn lemma_windows_after_push<T>(
    pushes: Seq<(Seq<char>, Vec<T>)>,
    window_size: nat,
    channel: Seq<char>,
    vector: Vec<T>,
)
    ensures
        windows_after(pushes.push((channel, vector)), window_size) == windows_after(pushes, window_size).insert(
            channel,
            recent(held(windows_after(pushes, window_size), channel).push(vector), effective_window(window_size)),
        ),
{
    assert(pushes.push((channel, vector)).drop_last() =~= pushes);
}

/// The vectors among `pushes` that went to `channel`, in order.
pub open spec fn pushed_to<T>(pushes: Seq<(Seq<char>, Vec<T>)>, channel: Seq<char>) -> Seq<Vec<T>>
    decreases pushes.len(),
{
    if pushes.len() == 0 {
        Seq::empty()
    } else {
        let earlier = pushed_to(pushes.drop_last(), channel);
        if pushes.last().0 == channel {
            earlier.push(pushes.last().1)
        } else {
            earlier
        }
    }
}

/// Each channel of a batch predictor behaves as a lone moving-average
/// predictor of the same window size fed the vectors pushed to that channel:
/// after any sequence of pushes, a channel exists exactly when something was
/// pushed to it, and then it holds what `MovingAveragePredictor::new` would
/// hold after the same pushes.  Pushes to other channels play no part.
pub proof fn lemma_channel_is_lone_predictor<T>(
    pushes: Seq<(Seq<char>, Vec<T>)>,
    window_size: nat,
    channel: Seq<char>,
)
    ensures
        windows_after(pushes, window_size).contains_key(channel) == (pushed_to(pushes, channel).len() > 0),
        windows_after(pushes, window_size).contains_key(channel) ==> windows_after(pushes, window_size)[channel]
            == observations_after(pushed_to(pushes, channel), window_size),
    decreases pushes.len(),
{
    if pushes.len() > 0 {
        let earlier = pushes.drop_last();
        lemma_channel_is_lone_predictor(earlier, window_size, channel);
        let s = pushed_to(earlier, channel);
        if pushes.last().0 == channel {
            let s2 = s.push(pushes.last().1);
            assert(s2.drop_last() =~= s);
            assert(s2.last() == pushes.last().1);
            if s.len() == 0 {
                assert(observations_after(s, window_size) == Seq::<Vec<T>>::empty());
            }
        }
    }
}

/// After any sequence of pushes to a batch predictor made by
/// `new(window_size)`, a channel to which `k` vectors were pushed holds
/// exactly the last `min(k, c)` of them, oldest first, where `c` is
/// `window_size` (or 1 when it is 0): its element `i` is element
/// `k - len + i` of the vectors pushed to it.
pub proof fn lemma_channel_keeps_last<T>(
    pushes: Seq<(Seq<char>, Vec<T>)>,
    window_size: nat,
    channel: Seq<char>,
)
    requires
        windows_after(pushes, window_size).contains_key(channel),
    ensures
        windows_after(pushes, window_size)[channel].len() == ({
            let c: nat = if window_size == 0 { 1 } else { window_size };
            let k = pushed_to(pushes, channel).len();
            if k <= c { k } else { c }
        }),
        forall|i: int|
            0 <= i < windows_after(pushes, window_size)[channel].len() ==> #[trigger] windows_after(
                pushes,
                window_size,
            )[channel][i] == pushed_to(pushes, channel)[pushed_to(pushes, channel).len()
                - windows_after(pushes, window_size)[channel].len() + i],
{
    lemma_channel_is_lone_predictor(pushes, window_size, channel);
    crate::moving_average::lemma_observations_after_is_suffix(pushed_to(pushes, channel), window_size);
}

/// The position of the channel named `name` in `entries`, if there is one.
fn position_of<T>(entries: &Vec<(String, MovingAveragePredictor<T>)>, name: &String) -> (r: Option<usize>)
    ensures
        match r {
            Some(i) => names_at(entries@, i as int, name@),
            None => forall|i: int| !names_at(entries@, i, name@),
        },
{
    let n = entries.len();
    for i in 0..n
        invariant
            n == entries.len(),
            forall|j: int| 0 <= j < i ==> !names_at(entries@, j, name@),
    {
        if entries[i].0 == *name {
            return Some(i);
        }
    }
    None
}

/// Channels are independent: an observation pushed to one channel leaves
/// every other channel as it was, and opens no other channel.
pub proof fn lemma_push_leaves_other_channels<T>(
    before: Map<Seq<char>, Seq<Vec<T>>>,
    after: Map<Seq<char>, Seq<Vec<T>>>,
    channel: Seq<char>,
    vector: Vec<T>,
    window_size: nat,
    other: Seq<char>,
)
    requires
        after == before.insert(channel, recent(held(before, channel).push(vector), effective_window(window_size))),
        other != channel,
    ensures
        after.contains_key(other) == before.contains_key(other),
        before.contains_key(other) ==> after[other] == before[other],
        after.contains_key(channel),
        after[channel].len() >= 1,
        after[channel].last() == vector,
{
    crate::window::lemma_newest_is_kept(held(before, channel), vector, effective_window(window_size));
}

impl<T> BatchPredictor<T> {
    /// No channel name occurs twice, and every channel averages the same
    /// number of observations.
    #[verifier::type_invariant]
    spec fn well_formed(&self) -> bool {
        &&& distinct_names(self.channels@)
        &&& forall|i: int|
            0 <= i < self.channels.len() ==> (#[trigger] self.channels@[i]).1.window_size()
                == effective_window(self.window_size as nat)
    }

    /// The observations of every channel, by channel name.
    pub closed spec fn windows(&self) -> Map<Seq<char>, Seq<Vec<T>>> {
        windows_of(self.channels@)
    }

    /// The window size each channel's predictor is made with.
    pub closed spec fn window_size(&self) -> nat {
        self.window_size as nat
    }

    /// A batch predictor with no channel.
    pub fn new(window_size: usize) -> (b: Self)
        ensures
            b.windows() == Map::<Seq<char>, Seq<Vec<T>>>::empty(),
            b.window_size() == window_size,
    {
        let b = BatchPredictor { channels: Vec::new(), window_size };
        assert(b.windows() =~= Map::<Seq<char>, Seq<Vec<T>>>::empty());
        b
    }

    /// Adds an observation to the channel named `channel`, opening the
    /// channel first when it does not exist yet.
    pub fn push(&mut self, channel: String, vector: Vec<T>)
        ensures
            final(self).windows() == old(self).windows().insert(
                channel@,
                recent(held(old(self).windows(), channel@).push(vector), effective_window(old(self).window_size())),
            ),
            final(self).window_size() == old(self).window_size(),
            final(self).windows().contains_key(channel@),
            final(self).windows()[channel@].len() == ({
                let c: nat = if old(self).window_size() == 0 { 1 } else { old(self).window_size() };
                let k: nat = held(old(self).windows(), channel@).len() + 1;
                if k <= c { k } else { c }
            }),
            forall|i: int|
                0 <= i < final(self).windows()[channel@].len() ==> #[trigger] final(self).windows()[channel@][i]
                    == held(old(self).windows(), channel@).push(vector)[held(old(self).windows(), channel@).len() + 1
                    - final(self).windows()[channel@].len() + i],
    {
        proof {
            use_type_invariant(&*self);
        }
        let ghost old_entries = self.channels@;
        let ghost name = channel@;
        let ghost pushed = vector;
        let mut entries: Vec<(String, MovingAveragePredictor<T>)> = Vec::new();
        std::mem::swap(&mut entries, &mut self.channels);
        let found = position_of(&entries, &channel);
        match found {
            Some(i) => {
                let (key, mut predictor) = entries.remove(i);
                proof {
                    lemma_windows_at(old_entries, i as int);
                }
                predictor.push(vector);
                entries.insert(i, (key, predictor));
                proof {
                    assert(entries@ =~= old_entries.update(i as int, entries@[i as int]));
                    lemma_windows_replace(old_entries, i as int, entries@[i as int]);
                }
            },
            None => {
                let mut predictor = MovingAveragePredictor::new(self.window_size);
                predictor.push(vector);
                entries.push((channel, predictor));
                proof {
                    assert(!windows_of(old_entries).contains_key(name));
                    lemma_windows_append(old_entries, entries@.last());
                    assert(entries@ =~= old_entries.push(entries@.last()));
                }
            },
        }
        self.channels = entries;
        proof {
            crate::moving_average::lemma_effective_window(old(self).window_size());
            crate::window::lemma_recent_is_suffix(
                held(old(self).windows(), name).push(pushed),
                effective_window(old(self).window_size()),
            );
        }
    }
    /// The predictor of the channel named `channel`, if that channel has
    /// been opened.
    pub fn predictor(&self, channel: &str) -> (r: Option<&MovingAveragePredictor<T>>)
        ensures
            r is Some == self.windows().contains_key(channel@),
            r matches Some(p) ==> {
                &&& p.observations() == self.windows()[channel@]
                &&& p.window_size() == effective_window(self.window_size())
                &&& p.window_size() == if self.window_size() == 0 { 1 } else { self.window_size() }
            },
    {
        proof {
            use_type_invariant(self);
        }
        let key = channel.to_owned();
        match position_of(&self.channels, &key) {
            Some(i) => {
                proof {
                    lemma_windows_at(self.channels@, i as int);
                }
                Some(&self.channels[i].1)
            },
            None => {
                assert(!self.windows().contains_key(channel@));
                None
            },
        }
    }

    /// The names of the open channels, each once.
    pub fn channels(&self) -> (r: Vec<&String>)
        ensures
            forall|a: int| 0 <= a < r.len() ==> self.windows().contains_key((#[trigger] r@[a])@),
            forall|name: Seq<char>| #[trigger] self.windows().contains_key(name) ==> exists|a: int| 0 <= a < r.len() && (#[trigger] r@[a])@ == name,
            forall|a: int, b: int| 0 <= a < b < r.len() ==> (#[trigger] r@[a])@ != (#[trigger] r@[b])@,
    {
        proof {
            use_type_invariant(self);
        }
        let n = self.channels.len();
        let mut names: Vec<&String> = Vec::new();
        for i in 0..n
            invariant
                n == self.channels.len(),
                distinct_names(self.channels@),
                names.len() == i,
                forall|a: int| 0 <= a < i ==> (#[trigger] names@[a])@ == self.channels@[a].0@,
        {
            names.push(&self.channels[i].0);
        }
        proof {
            assert forall|a: int| 0 <= a < names.len() implies self.windows().contains_key((#[trigger] names@[a])@) by {
                lemma_windows_at(self.channels@, a);
            }
            assert forall|name: Seq<char>| #[trigger] self.windows().contains_key(name) implies exists|a: int| 0 <= a < names.len() && (#[trigger] names@[a])@ == name by {
                let c = choose|c: int| names_at(self.channels@, c, name);
                assert(names@[c]@ == name);
            }
            assert forall|a: int, b: int| 0 <= a < b < names.len() implies (#[trigger] names@[a])@ != (#[trigger] names@[b])@ by {
                assert(self.channels@[a].0@ != self.channels@[b].0@);
            }
        }
        names
    }
}


impl<T: Clone> Clone for BatchPredictor<T> {
    /// A batch predictor with the same window size and the same channels,
    /// each holding clones of the same observations.
    fn clone(&self) -> (b: Self)
        ensures
            b.window_size() == self.window_size(),
            b.windows().dom() == self.windows().dom(),
            forall|name: Seq<char>|
                #[trigger] self.windows().contains_key(name) ==> b.windows()[name].len() == self.windows()[name].len(),
            forall|name: Seq<char>, j: int|
                self.windows().contains_key(name) && 0 <= j < self.windows()[name].len() ==> cloned::<Vec<T>>(
                    self.windows()[name][j],
                    #[trigger] b.windows()[name][j],
                ),
    {
        proof {
            use_type_invariant(self);
        }
        let n = self.channels.len();
        let mut entries: Vec<(String, MovingAveragePredictor<T>)> = Vec::new();
        for i in 0..n
            invariant
                n == self.channels.len(),
                distinct_names(self.channels@),
                forall|a: int|
                    0 <= a < n ==> (#[trigger] self.channels@[a]).1.window_size() == effective_window(self.window_size as nat),
                entries.len() == i,
                forall|a: int| 0 <= a < i ==> (#[trigger] entries@[a]).0@ == self.channels@[a].0@,
                forall|a: int|
                    0 <= a < i ==> (#[trigger] entries@[a]).1.window_size() == effective_window(self.window_size as nat),
                forall|a: int|
                    0 <= a < i ==> (#[trigger] entries@[a]).1.observations().len() == self.channels@[a].1.observations().len(),
                forall|a: int, j: int|
                    0 <= a < i && 0 <= j < self.channels@[a].1.observations().len() ==> cloned::<Vec<T>>(
                        self.channels@[a].1.observations()[j],
                        #[trigger] entries@[a].1.observations()[j],
                    ),
        {
            let name = self.channels[i].0.clone();
            let predictor = self.channels[i].1.clone();
            entries.push((name, predictor));
        }
        proof {
            assert(distinct_names(entries@)) by {
                assert forall|a: int, b: int| 0 <= a < b < entries@.len() implies #[trigger] entries@[a].0@ != #[trigger] entries@[b].0@ by {
                    assert(self.channels@[a].0@ != self.channels@[b].0@);
                }
            }
            assert forall|name: Seq<char>| windows_of(entries@).contains_key(name) <==> self.windows().contains_key(name) by {
                if windows_of(entries@).contains_key(name) {
                    let c = choose|c: int| names_at(entries@, c, name);
                    assert(names_at(self.channels@, c, name));
                }
                if self.windows().contains_key(name) {
                    let c = choose|c: int| names_at(self.channels@, c, name);
                    assert(names_at(entries@, c, name));
                }
            }
            assert(windows_of(entries@).dom() =~= self.windows().dom());
            assert forall|name: Seq<char>| #[trigger] self.windows().contains_key(name) implies {
                &&& windows_of(entries@)[name].len() == self.windows()[name].len()
                &&& forall|j: int| 0 <= j < self.windows()[name].len() ==> cloned::<Vec<T>>(
                    self.windows()[name][j],
                    #[trigger] windows_of(entries@)[name][j],
                )
            } by {
                let c = choose|c: int| names_at(self.channels@, c, name);
                assert(names_at(entries@, c, name));
                lemma_windows_at(self.channels@, c);
                lemma_windows_at(entries@, c);
            }
        }
        BatchPredictor { channels: entries, window_size: self.window_size }
    }
}


impl<T> Default for BatchPredictor<T> {
    /// A batch predictor with no channel and window size 0 (each channel
    /// then averages its last observation).
    fn default() -> (b: Self)
        ensures
            b.windows() == Map::<Seq<char>, Seq<Vec<T>>>::empty(),
            b.window_size() == 0,
    {
        BatchPredictor::new(0)
    }
}

} // verus!
