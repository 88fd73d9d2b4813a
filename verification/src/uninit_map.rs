//! Maps from bounded indices to values with constant-time insert, lookup and
//! clear: an index table points into an insertion log, and a lookup is
//! trusted only if the log entry it finds carries the index looked up.
use vstd::prelude::*;

verus! {

/// The map described by an insertion log: later entries win.
pub open spec fn log_map<T>(log: Seq<(usize, T)>) -> Map<usize, T>
    decreases log.len(),
{
    if log.len() == 0 {
        Map::empty()
    } else {
        log_map(log.drop_last()).insert(log.last().0, log.last().1)
    }
}

/// `p` is the last position of the log that holds index `k`.
pub open spec fn last_pos<T>(log: Seq<(usize, T)>, k: usize, p: int) -> bool {
    &&& 0 <= p < log.len()
    &&& log[p].0 == k
    &&& forall|j: int| p < j < log.len() ==> log[j].0 != k
}

/// An index is in the map exactly when the log holds it, and its value is
/// the one of its last entry.
pub proof fn lemma_log_map<T>(log: Seq<(usize, T)>, k: usize)
    ensures
        log_map(log).contains_key(k) <==> exists|j: int| 0 <= j < log.len() && log[j].0 == k,
        forall|p: int| last_pos(log, k, p) ==> log_map(log)[k] == log[p].1,
    decreases log.len(),
{
    if log.len() > 0 {
        let init = log.drop_last();
        lemma_log_map(init, k);
        if log.last().0 == k {
            assert(log[log.len() - 1].0 == k);
            assert forall|p: int| last_pos(log, k, p) implies log_map(log)[k] == log[p].1 by {
                assert(p == log.len() - 1);
            }
        } else {
            assert forall|p: int| last_pos(log, k, p) implies log_map(log)[k] == log[p].1 by {
                assert(last_pos(init, k, p));
            }
            if exists|j: int| 0 <= j < log.len() && log[j].0 == k {
                let j = choose|j: int| 0 <= j < log.len() && log[j].0 == k;
                assert(init[j].0 == k);
            }
            if exists|j: int| 0 <= j < init.len() && init[j].0 == k {
                let j = choose|j: int| 0 <= j < init.len() && init[j].0 == k;
                assert(log[j].0 == k);
            }
        }
    }
}

/// Reading an index back after inserting it gives the value inserted;
/// every other index keeps its mapping.
pub proof fn lemma_insert_then_get<T>(log: Seq<(usize, T)>, k: usize, v: T, j: usize)
    ensures
        log_map(log.push((k, v))).contains_key(j) == (j == k || log_map(log).contains_key(j)),
        j == k ==> log_map(log.push((k, v)))[j] == v,
        j != k ==> log_map(log.push((k, v)))[j] == log_map(log)[j],
{
    assert(log.push((k, v)).drop_last() =~= log);
}

/// The index table agrees with the log: every logged index is below
/// `cap`, and its slot points at its last entry.
pub open spec fn table_agrees<T>(indices: Seq<usize>, log: Seq<(usize, T)>, cap: nat) -> bool {
    &&& indices.len() == cap
    &&& forall|j: int|
        0 <= j < log.len() ==> {
            let k = #[trigger] log[j].0;
            &&& k < cap
            &&& last_pos(log, k, indices[k as int] as int)
        }
}

/// Appending `(k, v)` and pointing slot `k` at it keeps table and log in
/// agreement.
proof fn lemma_agrees_push<T>(indices: Seq<usize>, log: Seq<(usize, T)>, cap: nat, k: usize, v: T)
    requires
        table_agrees(indices, log, cap),
        k < cap,
        log.len() <= usize::MAX,
    ensures
        table_agrees(indices.update(k as int, log.len() as usize), log.push((k, v)), cap),
{
    let ni = indices.update(k as int, log.len() as usize);
    let nl = log.push((k, v));
    assert forall|j: int| 0 <= j < nl.len() implies {
        let kk = #[trigger] nl[j].0;
        &&& kk < cap
        &&& last_pos(nl, kk, ni[kk as int] as int)
    } by {
        let kk = nl[j].0;
        if kk != k {
            assert(nl[j] == log[j]);
            assert(last_pos(log, kk, indices[kk as int] as int));
        }
    }
}

/// Looking up `k` through a table that agrees with the log finds the value
/// of the map: a slot of an index that was never inserted may hold anything
/// and still never makes a lookup succeed.
pub proof fn lemma_lookup_sound<T>(indices: Seq<usize>, log: Seq<(usize, T)>, cap: nat, k: usize)
    requires
        table_agrees(indices, log, cap),
        k < cap,
    ensures
        ({
            let p = indices[k as int] as int;
            (p < log.len() && log[p].0 == k) <==> log_map(log).contains_key(k)
        }),
        ({
            let p = indices[k as int] as int;
            p < log.len() && log[p].0 == k ==> log_map(log)[k] == log[p].1
        }),
{
    lemma_log_map(log, k);
    let p = indices[k as int] as int;
    if log_map(log).contains_key(k) {
        let j = choose|j: int| 0 <= j < log.len() && log[j].0 == k;
        assert(last_pos(log, log[j].0, indices[log[j].0 as int] as int));
    }
}

/// Map from indices below a fixed bound to values.
pub struct UninitMap<T> {
    indices: Vec<usize>,
    list: Vec<(usize, T)>,
}

impl<T> View for UninitMap<T> {
    type V = Map<usize, T>;

    closed spec fn view(&self) -> Map<usize, T> {
        log_map(self.list@)
    }
}

impl<T> UninitMap<T> {
    /// The insertion log, oldest entry first.
    pub closed spec fn entries(&self) -> Seq<(usize, T)> {
        self.list@
    }

    /// The bound on the indices.
    pub closed spec fn capacity(&self) -> nat {
        self.indices@.len()
    }

    /// The index table agrees with the log.
    pub closed spec fn wf(&self) -> bool {
        table_agrees(self.indices@, self.list@, self.indices@.len())
    }

    /// The map is the one its log describes.
    pub proof fn lemma_view(&self)
        ensures
            self@ == log_map(self.entries()),
    {
    }

    /// An empty map for indices below `n`.
    pub fn new(n: usize) -> (m: Self)
        requires
            (n as int) * ((usize::BITS / 8) as int) <= isize::MAX,
        ensures
            m.wf(),
            m.capacity() == n,
            m.entries() == Seq::<(usize, T)>::empty(),
            m@ == Map::<usize, T>::empty(),
    {
        Self::empty(n)
    }

    /// An empty map for indices below `n`, whatever the size of its table.
    fn empty(n: usize) -> (m: Self)
        ensures
            m.wf(),
            m.capacity() == n,
            m.entries() == Seq::<(usize, T)>::empty(),
            m@ == Map::<usize, T>::empty(),
    {
        let mut indices: Vec<usize> = Vec::with_capacity(n);
        let mut i: usize = 0;
        while i < n
            invariant
                i <= n,
                indices@.len() == i,
            decreases n - i,
        {
            indices.push(0);
            i = i + 1;
        }
        let m = Self { indices, list: Vec::with_capacity(n) };
        assert(m.list@ =~= Seq::<(usize, T)>::empty());
        m
    }

    /// Maps `index` to `value`.
    pub fn insert(&mut self, index: usize, value: T)
        requires
            old(self).wf(),
            index < old(self).capacity(),
        ensures
            final(self).wf(),
            final(self).capacity() == old(self).capacity(),
            final(self).entries() == old(self).entries().push((index, value)),
            final(self)@ == old(self)@.insert(index, value),
    {
        let len = self.list.len();
        proof {
            lemma_agrees_push(self.indices@, self.list@, self.indices@.len(), index, value);
        }
        self.indices.set(index, len);
        self.list.push((index, value));
        proof {
            assert(self.list@.drop_last() =~= old(self).list@);
        }
    }

    /// The value `index` maps to, if any.
    pub fn get(&self, index: usize) -> (r: Option<&T>)
        requires
            self.wf(),
            index < self.capacity(),
        ensures
            r is Some <==> self@.contains_key(index),
            r is Some ==> *r.unwrap() == self@[index],
    {
        proof {
            lemma_lookup_sound(self.indices@, self.list@, self.indices@.len(), index);
        }
        let list_index = self.indices[index];
        if list_index < self.list.len() && self.list[list_index].0 == index {
            Some(&self.list[list_index].1)
        } else {
            None
        }
    }

    /// Removes every mapping.
    pub fn clear(&mut self)
        requires
            old(self).wf(),
        ensures
            final(self).wf(),
            final(self).capacity() == old(self).capacity(),
            final(self).entries() == Seq::<(usize, T)>::empty(),
            final(self)@ == Map::<usize, T>::empty(),
    {
        self.list.clear();
    }

    /// The indices of the log, in insertion order.
    pub fn keys(&self) -> (r: Vec<usize>)
        ensures
            r@.len() == self.entries().len(),
            forall|i: int| 0 <= i < r@.len() ==> r@[i] == #[trigger] self.entries()[i].0,
    {
        let mut r: Vec<usize> = Vec::new();
        let mut i: usize = 0;
        while i < self.list.len()
            invariant
                i <= self.list@.len(),
                r@.len() == i,
                forall|j: int| 0 <= j < i ==> r@[j] == #[trigger] self.list@[j].0,
            decreases self.list@.len() - i,
        {
            r.push(self.list[i].0);
            i = i + 1;
        }
        r
    }

    /// The values of the log, in insertion order.
    pub fn values(&self) -> (r: Vec<&T>)
        ensures
            r@.len() == self.entries().len(),
            forall|i: int| 0 <= i < r@.len() ==> *r@[i] == #[trigger] self.entries()[i].1,
    {
        let mut r: Vec<&T> = Vec::new();
        let mut i: usize = 0;
        while i < self.list.len()
            invariant
                i <= self.list@.len(),
                r@.len() == i,
                forall|j: int| 0 <= j < i ==> *r@[j] == #[trigger] self.list@[j].1,
            decreases self.list@.len() - i,
        {
            r.push(&self.list[i].1);
            i = i + 1;
        }
        r
    }

    /// The entries of the log, in insertion order.
    pub fn iter(&self) -> (r: Vec<(usize, &T)>)
        ensures
            r@.len() == self.entries().len(),
            forall|i: int|
                0 <= i < r@.len() ==> r@[i].0 == #[trigger] self.entries()[i].0 && *r@[i].1
                    == self.entries()[i].1,
    {
        let mut r: Vec<(usize, &T)> = Vec::new();
        let mut i: usize = 0;
        while i < self.list.len()
            invariant
                i <= self.list@.len(),
                r@.len() == i,
                forall|j: int|
                    0 <= j < i ==> r@[j].0 == #[trigger] self.list@[j].0 && *r@[j].1
                        == self.list@[j].1,
            decreases self.list@.len() - i,
        {
            r.push((self.list[i].0, &self.list[i].1));
            i = i + 1;
        }
        r
    }

    /// Replaces every value of the log by `f` of it.
    pub fn values_mut(&mut self, f: impl Fn(&T) -> T)
        requires
            old(self).wf(),
            forall|v: &T| #[trigger] f.requires((v,)),
        ensures
            final(self).wf(),
            final(self).capacity() == old(self).capacity(),
            final(self).entries().len() == old(self).entries().len(),
            forall|i: int|
                0 <= i < old(self).entries().len() ==> final(self).entries()[i].0 == #[trigger] old(
                    self,
                ).entries()[i].0 && f.ensures((&old(self).entries()[i].1,), final(self).entries()[i].1),
    {
        let fr = &f;
        let g = |_k: usize, v: &T| -> (r: T)
            requires
                fr.requires((v,)),
            ensures
                fr.ensures((v,), r),
            { fr(v) };
        self.iter_mut(g);
        proof {
            assert forall|i: int| 0 <= i < old(self).entries().len() implies f.ensures(
                (&old(self).entries()[i].1,),
                #[trigger] self.entries()[i].1,
            ) by {
                assert(g.ensures(
                    (old(self).entries()[i].0, &old(self).entries()[i].1),
                    self.entries()[i].1,
                ));
            }
        }
    }

    /// Replaces the value of every log entry `(k, v)` by `f(k, v)`.
    pub fn iter_mut(&mut self, f: impl Fn(usize, &T) -> T)
        requires
            old(self).wf(),
            forall|k: usize, v: &T| #[trigger] f.requires((k, v)),
        ensures
            final(self).wf(),
            final(self).capacity() == old(self).capacity(),
            final(self).entries().len() == old(self).entries().len(),
            forall|i: int|
                0 <= i < old(self).entries().len() ==> final(self).entries()[i].0 == #[trigger] old(
                    self,
                ).entries()[i].0 && f.ensures(
                    (old(self).entries()[i].0, &old(self).entries()[i].1),
                    final(self).entries()[i].1,
                ),
    {
        let n = self.list.len();
        let mut i: usize = 0;
        while i < n
            invariant
                n == self.list@.len(),
                n == old(self).list@.len(),
                i <= n,
                self.indices@ == old(self).indices@,
                forall|j: int| 0 <= j < n ==> #[trigger] self.list@[j].0 == old(self).list@[j].0,
                forall|j: int|
                    i <= j < n ==> #[trigger] self.list@[j] == old(self).list@[j],
                forall|j: int|
                    0 <= j < i ==> f.ensures(
                        (old(self).list@[j].0, &old(self).list@[j].1),
                        #[trigger] self.list@[j].1,
                    ),
                forall|k: usize, v: &T| #[trigger] f.requires((k, v)),
            decreases n - i,
        {
            let k = self.list[i].0;
            let nv = f(k, &self.list[i].1);
            self.list[i].1 = nv;
            i = i + 1;
        }
        proof {
            assert forall|j: int| 0 <= j < self.list@.len() implies {
                let kk = #[trigger] self.list@[j].0;
                &&& kk < self.indices@.len()
                &&& last_pos(self.list@, kk, self.indices@[kk as int] as int)
            } by {
                assert(self.list@[j].0 == old(self).list@[j].0);
                let kk = old(self).list@[j].0;
                assert(last_pos(old(self).list@, kk, old(self).indices@[kk as int] as int));
            }
        }
    }
}


/// Map from indices below `N` to at most `N` insertions.
pub struct UninitMapArray<T, const N: usize> {
    map: UninitMap<T>,
}

impl<T, const N: usize> View for UninitMapArray<T, N> {
    type V = Map<usize, T>;

    closed spec fn view(&self) -> Map<usize, T> {
        self.map@
    }
}

impl<T, const N: usize> Default for UninitMapArray<T, N> {
    /// An empty map.
    fn default() -> (m: Self)
        ensures
            m.wf(),
            m.entries() == Seq::<(usize, T)>::empty(),
            m@ == Map::<usize, T>::empty(),
    {
        Self { map: UninitMap::empty(N) }
    }
}

impl<T, const N: usize> UninitMapArray<T, N> {
    /// The insertion log, oldest entry first.
    pub closed spec fn entries(&self) -> Seq<(usize, T)> {
        self.map.entries()
    }

    /// The index table agrees with the log and has `N` slots.
    pub closed spec fn wf(&self) -> bool {
        self.map.wf() && self.map.capacity() == N
    }

    /// The map is the one its log describes.
    pub proof fn lemma_view(&self)
        ensures
            self@ == log_map(self.entries()),
    {
        self.map.lemma_view();
    }

    /// An empty map, on the heap.
    pub fn default_box() -> (b: Box<Self>)
        ensures
            b.wf(),
            b.entries() == Seq::<(usize, T)>::empty(),
            b@ == Map::<usize, T>::empty(),
    {
        Box::new(Self { map: UninitMap::empty(N) })
    }

    /// Maps `index` to `value`; at most `N` insertions fit until the next
    /// `clear`.
    pub fn insert(&mut self, index: usize, value: T)
        requires
            old(self).wf(),
            index < N,
            old(self).entries().len() < N,
        ensures
            final(self).wf(),
            final(self).entries() == old(self).entries().push((index, value)),
            final(self)@ == old(self)@.insert(index, value),
    {
        self.map.insert(index, value);
    }

    /// The value `index` maps to, if any.
    pub fn get(&self, index: usize) -> (r: Option<&T>)
        requires
            self.wf(),
            index < N,
        ensures
            r is Some <==> self@.contains_key(index),
            r is Some ==> *r.unwrap() == self@[index],
    {
        self.map.get(index)
    }

    /// Removes every mapping.
    pub fn clear(&mut self)
        requires
            old(self).wf(),
        ensures
            final(self).wf(),
            final(self).entries() == Seq::<(usize, T)>::empty(),
            final(self)@ == Map::<usize, T>::empty(),
    {
        self.map.clear();
    }

    /// The indices of the log, in insertion order.
    pub fn keys(&self) -> (r: Vec<usize>)
        ensures
            r@.len() == self.entries().len(),
            forall|i: int| 0 <= i < r@.len() ==> r@[i] == #[trigger] self.entries()[i].0,
    {
        self.map.keys()
    }

    /// The values of the log, in insertion order.
    pub fn values(&self) -> (r: Vec<&T>)
        ensures
            r@.len() == self.entries().len(),
            forall|i: int| 0 <= i < r@.len() ==> *r@[i] == #[trigger] self.entries()[i].1,
    {
        self.map.values()
    }

    /// The entries of the log, in insertion order.
    pub fn iter(&self) -> (r: Vec<(usize, &T)>)
        ensures
            r@.len() == self.entries().len(),
            forall|i: int|
                0 <= i < r@.len() ==> r@[i].0 == #[trigger] self.entries()[i].0 && *r@[i].1
                    == self.entries()[i].1,
    {
        self.map.iter()
    }

    /// Replaces every value of the log by `f` of it.
    pub fn values_mut(&mut self, f: impl Fn(&T) -> T)
        requires
            old(self).wf(),
            forall|v: &T| #[trigger] f.requires((v,)),
        ensures
            final(self).wf(),
            final(self).entries().len() == old(self).entries().len(),
            forall|i: int|
                0 <= i < old(self).entries().len() ==> final(self).entries()[i].0 == #[trigger] old(
                    self,
                ).entries()[i].0 && f.ensures((&old(self).entries()[i].1,), final(self).entries()[i].1),
    {
        self.map.values_mut(f);
    }

    /// Replaces the value of every log entry `(k, v)` by `f(k, v)`.
    pub fn iter_mut(&mut self, f: impl Fn(usize, &T) -> T)
        requires
            old(self).wf(),
            forall|k: usize, v: &T| #[trigger] f.requires((k, v)),
        ensures
            final(self).wf(),
            final(self).entries().len() == old(self).entries().len(),
            forall|i: int|
                0 <= i < old(self).entries().len() ==> final(self).entries()[i].0 == #[trigger] old(
                    self,
                ).entries()[i].0 && f.ensures(
                    (old(self).entries()[i].0, &old(self).entries()[i].1),
                    final(self).entries()[i].1,
                ),
    {
        self.map.iter_mut(f);
    }
}

} // verus!
