//! A store of named state vectors, and the nearest-neighbour selection over
//! it.
//!
//! Distances between vectors are computed by the caller.  They reach this
//! module as order keys: one `u32` per stored vector, such that a smaller key
//! means a smaller distance and equal keys mean equal distances.
use vstd::prelude::*;

verus! {

/// A vector database: stored vectors and their ids, listed in step, in
/// insertion order.
#[derive(Debug)]
pub struct VectorDb<T> {
    vectors: Vec<Vec<T>>,
    ids: Vec<String>,
}

/// Whether stored vector `j` may be compared with a query of `query_len`
/// components: only vectors of the same length are.
pub open spec fn is_candidate(dims: Seq<int>, query_len: int, j: int) -> bool {
    0 <= j < dims.len() && dims[j] == query_len
}

/// The order in which candidates are ranked: by key, and among equal keys
/// by position in the store.
pub open spec fn ranks_before(keys: Seq<u32>, a: int, b: int) -> bool {
    keys[a] < keys[b] || (keys[a] == keys[b] && a < b)
}

/// `result` is the answer of a nearest-neighbour query: the first candidate
/// whose key is below `below` and minimal among such candidates, or `None`
/// when no candidate has a key below `below`.
pub open spec fn is_nearest(
    dims: Seq<int>,
    query_len: int,
    keys: Seq<u32>,
    below: u32,
    result: Option<usize>,
) -> bool {
    match result {
        Some(i) => {
            &&& is_candidate(dims, query_len, i as int)
            &&& keys[i as int] < below
            &&& forall|j: int|
                is_candidate(dims, query_len, j) && #[trigger] keys[j] < below ==> (
                keys[i as int] < keys[j] || (keys[i as int] == keys[j] && i <= j))
        },
        None => forall|j: int|
            is_candidate(dims, query_len, j) ==> #[trigger] keys[j] >= below,
    }
}

/// `result` is the answer of a k-nearest-neighbours query: distinct
/// candidates in ranking order, `k` of them or all there are, and every
/// candidate left out ranks after every candidate taken.
pub open spec fn is_knn(
    dims: Seq<int>,
    query_len: int,
    keys: Seq<u32>,
    k: int,
    result: Seq<usize>,
) -> bool {
    &&& result.len() <= k
    &&& forall|a: int| 0 <= a < result.len() ==> is_candidate(dims, query_len, #[trigger] result[a] as int)
    &&& forall|a: int, b: int|
        0 <= a < b < result.len() ==> ranks_before(keys, #[trigger] result[a] as int, #[trigger] result[b] as int)
    &&& forall|j: usize|
        is_candidate(dims, query_len, j as int) && !(#[trigger] result.contains(j)) ==> {
            &&& result.len() == k
            &&& forall|a: int| 0 <= a < result.len() ==> ranks_before(keys, #[trigger] result[a] as int, j as int)
        }
}

/// The nearest-neighbour answer, spelled out: a found vector has the query's
/// length and a key below `below`; no candidate with a key below `below` has
/// a smaller key; every candidate before it has a larger key (or one not
/// below `below`); and nothing is found only when no candidate has a key
/// below `below`.
pub proof fn lemma_nearest_is_first_minimum(
    dims: Seq<int>,
    query_len: int,
    keys: Seq<u32>,
    below: u32,
    result: Option<usize>,
)
    requires
        is_nearest(dims, query_len, keys, below, result),
    ensures
        result matches Some(i) ==> {
            &&& 0 <= i < dims.len()
            &&& dims[i as int] == query_len
            &&& keys[i as int] < below
            &&& forall|j: int| 0 <= j < dims.len() && dims[j] == query_len && keys[j] < below ==> keys[i as int] <= #[trigger] keys[j]
            &&& forall|j: int| 0 <= j < i && dims[j] == query_len ==> #[trigger] keys[j] > keys[i as int] || keys[j] >= below
        },
        result is None ==> forall|j: int| 0 <= j < dims.len() && dims[j] == query_len ==> #[trigger] keys[j] >= below,
{
    if let Some(i) = result {
        assert forall|j: int| 0 <= j < i && dims[j] == query_len implies #[trigger] keys[j] > keys[i as int] || keys[j] >= below by {
            assert(is_candidate(dims, query_len, j));
        }
        assert forall|j: int| 0 <= j < dims.len() && dims[j] == query_len && keys[j] < below implies keys[i as int] <= #[trigger] keys[j] by {
            assert(is_candidate(dims, query_len, j));
        }
    } else {
        assert forall|j: int| 0 <= j < dims.len() && dims[j] == query_len implies #[trigger] keys[j] >= below by {
            assert(is_candidate(dims, query_len, j));
        }
    }
}

/// The k-nearest answer, spelled out: at most `k` distinct vectors of the
/// query's length, keys never decreasing and equal keys in store order, and
/// any vector of the query's length left out has a key no smaller than the
/// last one taken, with `k` vectors taken.
pub proof fn lemma_knn_is_sorted_prefix(
    dims: Seq<int>,
    query_len: int,
    keys: Seq<u32>,
    k: int,
    result: Seq<usize>,
)
    requires
        is_knn(dims, query_len, keys, k, result),
    ensures
        result.len() <= k,
        forall|a: int| 0 <= a < result.len() ==> 0 <= #[trigger] result[a] < dims.len() && dims[result[a] as int] == query_len,
        forall|a: int, b: int|
            0 <= a < b < result.len() ==> keys[#[trigger] result[a] as int] <= keys[#[trigger] result[b] as int]
                && (keys[result[a] as int] == keys[result[b] as int] ==> result[a] < result[b]),
        forall|j: usize|
            j < dims.len() && dims[j as int] == query_len && !(#[trigger] result.contains(j)) ==> result.len() == k
                && (result.len() > 0 ==> keys[result[result.len() - 1] as int] <= keys[j as int]),
{
    assert forall|a: int| 0 <= a < result.len() implies 0 <= #[trigger] result[a] < dims.len() && dims[result[a] as int] == query_len by {
        assert(is_candidate(dims, query_len, result[a] as int));
    }
    assert forall|a: int, b: int|
        0 <= a < b < result.len() implies keys[#[trigger] result[a] as int] <= keys[#[trigger] result[b] as int]
            && (keys[result[a] as int] == keys[result[b] as int] ==> result[a] < result[b]) by {
        assert(ranks_before(keys, result[a] as int, result[b] as int));
    }
    assert forall|j: usize|
        j < dims.len() && dims[j as int] == query_len && !(#[trigger] result.contains(j)) implies result.len() == k
            && (result.len() > 0 ==> keys[result[result.len() - 1] as int] <= keys[j as int]) by {
        assert(is_candidate(dims, query_len, j as int));
        if result.len() > 0 {
            assert(ranks_before(keys, result[result.len() - 1] as int, j as int));
        }
    }
}

/// The nearest-neighbour answer is the head of the one-nearest-neighbour
/// ranking: when `nearest` finds a vector, the ranking of length one holds
/// exactly that vector; and when the head of that ranking has a key below
/// `below`, `nearest` finds it.
pub proof fn lemma_nearest_heads_knn(
    dims: Seq<int>,
    query_len: int,
    keys: Seq<u32>,
    below: u32,
    nearest: Option<usize>,
    top: Seq<usize>,
)
    requires
        is_nearest(dims, query_len, keys, below, nearest),
        is_knn(dims, query_len, keys, 1, top),
    ensures
        nearest matches Some(i) ==> top == seq![i],
        top.len() == 1 && keys[top[0] as int] < below ==> nearest == Some(top[0]),
{
    if let Some(i) = nearest {
        if !top.contains(i) {
            let t = top[0];
            assert(is_candidate(dims, query_len, t as int));
            assert(ranks_before(keys, t as int, i as int));
            assert(keys[t as int] < below);
            assert(false);
        }
        let c = choose|c: int| 0 <= c < top.len() && top[c] == i;
        assert(top =~= seq![i]);
    }
    if top.len() == 1 && keys[top[0] as int] < below {
        let t = top[0];
        assert(is_candidate(dims, query_len, t as int));
        match nearest {
            None => {
                assert(keys[t as int] >= below);
            },
            Some(i) => {
                assert(top =~= seq![i]);
            },
        }
    }
}

proof fn lemma_knn_agree_below(
    dims: Seq<int>,
    query_len: int,
    keys: Seq<u32>,
    k1: int,
    r1: Seq<usize>,
    k2: int,
    r2: Seq<usize>,
    a: int,
)
    requires
        is_knn(dims, query_len, keys, k1, r1),
        is_knn(dims, query_len, keys, k2, r2),
        k1 <= k2,
        0 <= a <= r1.len(),
        a <= r2.len(),
    ensures
        forall|b: int| 0 <= b < a ==> r1[b] == r2[b],
    decreases a,
{
    if a > 0 {
        lemma_knn_agree_below(dims, query_len, keys, k1, r1, k2, r2, a - 1);
        let b = a - 1;
        let x = r1[b];
        let y = r2[b];
        if x != y {
            assert(is_candidate(dims, query_len, x as int));
            assert(is_candidate(dims, query_len, y as int));
            if ranks_before(keys, x as int, y as int) {
                if !r2.contains(x) {
                    assert(ranks_before(keys, r2[b] as int, x as int));
                    assert(false);
                }
                let c = choose|c: int| 0 <= c < r2.len() && r2[c] == x;
                if c < b {
                    assert(r1[c] == r2[c]);
                    assert(ranks_before(keys, r1[c] as int, r1[b] as int));
                } else {
                    assert(ranks_before(keys, r2[b] as int, r2[c] as int));
                }
                assert(false);
            } else {
                assert(ranks_before(keys, y as int, x as int));
                if !r1.contains(y) {
                    assert(ranks_before(keys, r1[b] as int, y as int));
                    assert(false);
                }
                let c = choose|c: int| 0 <= c < r1.len() && r1[c] == y;
                if c < b {
                    assert(r1[c] == r2[c]);
                    assert(ranks_before(keys, r2[c] as int, r2[b] as int));
                } else {
                    assert(ranks_before(keys, r1[b] as int, r1[c] as int));
                }
                assert(false);
            }
        }
    }
}

/// Asking for fewer neighbours gives a prefix of the answer for more
/// neighbours; in particular the answer for a given `k` is unique.
pub proof fn lemma_knn_prefix(
    dims: Seq<int>,
    query_len: int,
    keys: Seq<u32>,
    k1: int,
    r1: Seq<usize>,
    k2: int,
    r2: Seq<usize>,
)
    requires
        is_knn(dims, query_len, keys, k1, r1),
        is_knn(dims, query_len, keys, k2, r2),
        k1 <= k2,
    ensures
        r1.len() <= r2.len(),
        r1 == r2.subrange(0, r1.len() as int),
{
    if r1.len() > r2.len() {
        let m = r2.len() as int;
        lemma_knn_agree_below(dims, query_len, keys, k1, r1, k2, r2, m);
        let x = r1[m];
        assert(is_candidate(dims, query_len, x as int));
        if !r2.contains(x) {
            assert(r2.len() == k2);
            assert(false);
        }
        let c = choose|c: int| 0 <= c < r2.len() && r2[c] == x;
        assert(r1[c] == r2[c]);
        assert(ranks_before(keys, r1[c] as int, r1[m] as int));
        assert(false);
    }
    lemma_knn_agree_below(dims, query_len, keys, k1, r1, k2, r2, r1.len() as int);
    assert(r1 =~= r2.subrange(0, r1.len() as int));
}

/// What a read gives back of a write: after `insert(id, vector)` on a
/// database of `n` entries, entry `n` holds `id` and `vector`, and the
/// entries before it are unchanged.
pub proof fn lemma_insert_then_get<T>(before: VectorDb<T>, after: VectorDb<T>, id: Seq<char>, vector: Seq<T>)
    requires
        after.ids() == before.ids().push(id),
        after.vectors() == before.vectors().push(vector),
    ensures
        after.vectors().len() == before.vectors().len() + 1,
        after.vectors()[before.vectors().len() as int] == vector,
        after.ids()[before.ids().len() as int] == id,
        forall|i: int| 0 <= i < before.vectors().len() ==> #[trigger] after.vectors()[i] == before.vectors()[i],
        forall|i: int| 0 <= i < before.ids().len() ==> #[trigger] after.ids()[i] == before.ids()[i],
{
}

impl<T> VectorDb<T> {
    /// Every stored vector has exactly one id.
    #[verifier::type_invariant]
    spec fn in_step(&self) -> bool {
        self.vectors.len() == self.ids.len()
    }

    /// The ids, in insertion order.
    pub closed spec fn ids(&self) -> Seq<Seq<char>> {
        self.ids@.map_values(|s: String| s@)
    }

    /// The stored vectors, in insertion order.
    pub closed spec fn vectors(&self) -> Seq<Seq<T>> {
        self.vectors@.map_values(|v: Vec<T>| v@)
    }

    /// The number of components of each stored vector.
    pub closed spec fn dims(&self) -> Seq<int> {
        self.vectors@.map_values(|v: Vec<T>| v@.len() as int)
    }

    /// The dimensions are those of the stored vectors.
    pub proof fn lemma_dims(&self)
        ensures
            self.dims().len() == self.vectors().len(),
            forall|j: int| 0 <= j < self.dims().len() ==> #[trigger] self.dims()[j] == self.vectors()[j].len(),
    {
    }

    pub fn new() -> (db: Self)
        ensures
            db.ids() == Seq::<Seq<char>>::empty(),
            db.vectors() == Seq::<Seq<T>>::empty(),
    {
        let db = VectorDb { vectors: Vec::new(), ids: Vec::new() };
        assert(db.ids() =~= Seq::<Seq<char>>::empty());
        assert(db.vectors() =~= Seq::<Seq<T>>::empty());
        db
    }

    /// Insert a named vector into the database.
    pub fn insert(&mut self, id: String, vector: Vec<T>)
        ensures
            final(self).ids() == old(self).ids().push(id@),
            final(self).vectors() == old(self).vectors().push(vector@),
    {
        let ghost id_view = id@;
        let ghost vec_view = vector@;
        let mut taken = VectorDb { vectors: Vec::new(), ids: Vec::new() };
        std::mem::swap(self, &mut taken);
        proof {
            use_type_invariant(&taken);
        }
        let VectorDb { mut vectors, mut ids } = taken;
        vectors.push(vector);
        ids.push(id);
        *self = VectorDb { vectors, ids };
        assert(self.ids() =~= old(self).ids().push(id_view));
        assert(self.vectors() =~= old(self).vectors().push(vec_view));
    }

    /// Number of stored vectors (and of ids).
    pub fn len(&self) -> (n: usize)
        ensures
            n == self.vectors().len(),
            n == self.ids().len(),
    {
        proof {
            use_type_invariant(self);
        }
        self.vectors.len()
    }

    pub fn is_empty(&self) -> (b: bool)
        ensures
            b == (self.vectors().len() == 0),
            b == (self.ids().len() == 0),
    {
        proof {
            use_type_invariant(self);
        }
        self.vectors.is_empty()
    }

    /// Retrieve a vector by index.
    pub fn get(&self, index: usize) -> (r: Option<&Vec<T>>)
        ensures
            r is Some == (index < self.vectors().len()),
            r matches Some(v) ==> v@ == self.vectors()[index as int],
    {
        if index < self.vectors.len() {
            Some(&self.vectors[index])
        } else {
            None
        }
    }

    /// Retrieve an id by index.
    pub fn get_id(&self, index: usize) -> (r: Option<&str>)
        ensures
            r is Some == (index < self.ids().len()),
            r matches Some(s) ==> s@ == self.ids()[index as int],
    {
        if index < self.ids.len() {
            Some(self.ids[index].as_str())
        } else {
            None
        }
    }

    /// Clear all vectors.
    pub fn clear(&mut self)
        ensures
            final(self).ids() == Seq::<Seq<char>>::empty(),
            final(self).vectors() == Seq::<Seq<T>>::empty(),
    {
        *self = VectorDb { vectors: Vec::new(), ids: Vec::new() };
        assert(self.ids() =~= Seq::<Seq<char>>::empty());
        assert(self.vectors() =~= Seq::<Seq<T>>::empty());
    }

    /// The index of the stored vector nearest to a query of `query_len`
    /// components, given one distance key per stored vector.  Only vectors
    /// of the query's length compete; a vector is taken only when its key is
    /// below `below` (the key of the largest finite distance) and below every
    /// key seen before it, so the first of several equally near vectors wins.
    pub fn nearest_index(&self, query_len: usize, keys: &Vec<u32>, below: u32) -> (r: Option<usize>)
        requires
            keys.len() == self.vectors().len(),
        ensures
            is_nearest(self.dims(), query_len as int, keys@, below, r),
    {
        let n = self.vectors.len();
        let mut best: Option<usize> = None;
        let mut best_key: u32 = below;
        for i in 0..n
            invariant
                n == self.vectors.len(),
                keys.len() == n,
                self.dims().len() == n,
                match best {
                    Some(b) => {
                        &&& b < i
                        &&& is_candidate(self.dims(), query_len as int, b as int)
                        &&& keys[b as int] == best_key
                        &&& best_key < below
                    },
                    None => best_key == below,
                },
                forall|j: int|
                    0 <= j < i && is_candidate(self.dims(), query_len as int, j) && #[trigger] keys@[j] < below
                        ==> keys@[j] >= best_key && (keys@[j] == best_key ==> (best matches Some(b) && b <= j)),
        {
            assert(self.dims()[i as int] == self.vectors@[i as int]@.len());
            if self.vectors[i].len() == query_len && keys[i] < best_key {
                best_key = keys[i];
                best = Some(i);
            }
        }
        best
    }

    /// The indices of the `k` stored vectors nearest to a query of
    /// `query_len` components, nearest first, given one distance key per
    /// stored vector.  Only vectors of the query's length are ranked; equally
    /// near vectors keep their order in the store.
    pub fn knn_indices(&self, query_len: usize, keys: &Vec<u32>, k: usize) -> (r: Vec<usize>)
        requires
            keys.len() == self.vectors().len(),
        ensures
            is_knn(self.dims(), query_len as int, keys@, k as int, r@),
    {
        let n = self.vectors.len();
        let mut sorted: Vec<usize> = Vec::new();
        for i in 0..n
            invariant
                n == self.vectors.len(),
                keys.len() == n,
                self.dims().len() == n,
                forall|a: int| 0 <= a < sorted.len() ==> is_candidate(self.dims(), query_len as int, #[trigger] sorted@[a] as int) && sorted@[a] < i,
                forall|a: int, b: int|
                    0 <= a < b < sorted.len() ==> ranks_before(keys@, #[trigger] sorted@[a] as int, #[trigger] sorted@[b] as int),
                forall|j: usize| j < i && is_candidate(self.dims(), query_len as int, j as int) ==> #[trigger] sorted@.contains(j),
        {
            assert(self.dims()[i as int] == self.vectors@[i as int]@.len());
            if self.vectors[i].len() == query_len {
                let key = keys[i];
                let mut p: usize = 0;
                while p < sorted.len() && keys[sorted[p]] <= key
                    invariant
                        p <= sorted.len(),
                        keys.len() == n,
                        key == keys@[i as int],
                        forall|a: int| 0 <= a < sorted.len() ==> #[trigger] sorted@[a] < n,
                        forall|a: int| 0 <= a < p ==> keys@[#[trigger] sorted@[a] as int] <= key,
                    decreases sorted.len() - p,
                {
                    p = p + 1;
                }
                let ghost old_sorted = sorted@;
                sorted.insert(p, i);
                assert forall|a: int, b: int|
                    0 <= a < b < sorted.len() implies ranks_before(keys@, #[trigger] sorted@[a] as int, #[trigger] sorted@[b] as int) by {
                    if b < p {
                        assert(sorted@[a] == old_sorted[a] && sorted@[b] == old_sorted[b]);
                    } else if b == p {
                        assert(sorted@[a] == old_sorted[a]);
                    } else if a == p {
                        assert(sorted@[b] == old_sorted[b - 1]);
                        assert(ranks_before(keys@, old_sorted[p as int] as int, old_sorted[b - 1] as int) || b - 1 == p);
                    } else if a < p {
                        assert(sorted@[a] == old_sorted[a] && sorted@[b] == old_sorted[b - 1]);
                    } else {
                        assert(sorted@[a] == old_sorted[a - 1] && sorted@[b] == old_sorted[b - 1]);
                    }
                }
                assert forall|j: usize| j < i + 1 && is_candidate(self.dims(), query_len as int, j as int) implies #[trigger] sorted@.contains(j) by {
                    if j < i {
                        assert(old_sorted.contains(j));
                        let q = choose|q: int| 0 <= q < old_sorted.len() && old_sorted[q] == j;
                        if q < p {
                            assert(sorted@[q] == j);
                        } else {
                            assert(sorted@[q + 1] == j);
                        }
                    } else {
                        assert(sorted@[p as int] == i);
                    }
                }
            }
        }
        let ghost full = sorted@;
        sorted.truncate(k);
        assert forall|j: usize|
            is_candidate(self.dims(), query_len as int, j as int) && !(#[trigger] sorted@.contains(j)) implies {
                &&& sorted@.len() == k
                &&& forall|a: int| 0 <= a < sorted@.len() ==> ranks_before(keys@, #[trigger] sorted@[a] as int, j as int)
            } by {
            assert(full.contains(j));
            let q = choose|q: int| 0 <= q < full.len() && full[q] == j;
            if q < k {
                assert(sorted@[q] == j);
            }
            assert forall|a: int| 0 <= a < sorted@.len() implies ranks_before(keys@, #[trigger] sorted@[a] as int, j as int) by {
                assert(sorted@[a] == full[a]);
            }
        }
        sorted
    }
}


impl<T: Clone> Clone for VectorDb<T> {
    /// A database with the same ids, holding clones of the same vectors.
    fn clone(&self) -> (c: Self)
        ensures
            c.ids() == self.ids(),
            c.vectors().len() == self.vectors().len(),
            forall|j: int| 0 <= j < self.vectors().len() ==> (#[trigger] c.vectors()[j]).len() == self.vectors()[j].len(),
            forall|j: int, k: int|
                0 <= j < self.vectors().len() && 0 <= k < self.vectors()[j].len() ==> cloned::<T>(
                    self.vectors()[j][k],
                    #[trigger] c.vectors()[j][k],
                ),
    {
        proof {
            use_type_invariant(self);
        }
        let n = self.vectors.len();
        let mut vectors: Vec<Vec<T>> = Vec::new();
        let mut ids: Vec<String> = Vec::new();
        for i in 0..n
            invariant
                n == self.vectors.len(),
                n == self.ids.len(),
                vectors.len() == i,
                ids.len() == i,
                forall|j: int| 0 <= j < i ==> (#[trigger] ids@[j]) == self.ids@[j],
                forall|j: int| 0 <= j < i ==> (#[trigger] vectors@[j]).len() == self.vectors@[j].len(),
                forall|j: int, k: int|
                    0 <= j < i && 0 <= k < self.vectors@[j].len() ==> cloned::<T>(
                        self.vectors@[j]@[k],
                        #[trigger] vectors@[j]@[k],
                    ),
        {
            vectors.push(self.vectors[i].clone());
            ids.push(self.ids[i].clone());
        }
        let c = VectorDb { vectors, ids };
        assert(c.ids() =~= self.ids());
        c
    }
}

impl<T> Default for VectorDb<T> {
    /// An empty database.
    fn default() -> (db: Self)
        ensures
            db.ids() == Seq::<Seq<char>>::empty(),
            db.vectors() == Seq::<Seq<T>>::empty(),
    {
        VectorDb::new()
    }
}

} // verus!
