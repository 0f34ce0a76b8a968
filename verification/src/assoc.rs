//! A finite map kept as an association list with unique keys, in insertion
//! order. Contract storage maps (balances, stock, prices, perks, allowances,
//! boosts) are all held in this shape.
use vstd::prelude::*;

verus! {

/// Keys whose equality can be decided in executable code.
pub trait KeyEq: Sized {
    fn key_eq(&self, other: &Self) -> (b: bool)
        ensures
            b == (*self == *other),
    ;
}

impl KeyEq for u64 {
    fn key_eq(&self, other: &Self) -> (b: bool) {
        *self == *other
    }
}

impl KeyEq for u128 {
    fn key_eq(&self, other: &Self) -> (b: bool) {
        *self == *other
    }
}

impl KeyEq for (u64, u128) {
    fn key_eq(&self, other: &Self) -> (b: bool) {
        self.0 == other.0 && self.1 == other.1
    }
}

impl KeyEq for (u64, u64) {
    fn key_eq(&self, other: &Self) -> (b: bool) {
        self.0 == other.0 && self.1 == other.1
    }
}

/// No key occurs twice in a list of pairs.
pub open spec fn unique_keys<K, V>(s: Seq<(K, V)>) -> bool {
    forall|i: int, j: int| 0 <= i < s.len() && 0 <= j < s.len() && i != j ==> s[i].0 != s[j].0
}

/// A finite map from `K` to `V` stored as a list of `(key, value)` pairs in
/// which no key occurs twice.
#[verifier::reject_recursive_types(K)]
pub struct AssocMap<K, V> {
    entries: Vec<(K, V)>,
    map: Ghost<Map<K, V>>,
}

impl<K: KeyEq, V> View for AssocMap<K, V> {
    type V = Map<K, V>;

    /// The map that the list stands for.
    closed spec fn view(&self) -> Map<K, V> {
        self.map@
    }
}

impl<K: KeyEq, V> AssocMap<K, V> {

    /// The stored pairs, in storage order.
    pub closed spec fn entries(&self) -> Seq<(K, V)> {
        self.entries@
    }

    /// The position of `k` in the stored pairs (meaningful when `k` is present).
    pub closed spec fn key_index(&self, k: K) -> int {
        choose|i: int| 0 <= i < self.entries@.len() && self.entries@[i].0 == k
    }

    /// The list and the map agree, and no key is stored twice.
    pub closed spec fn wf(&self) -> bool {
        &&& self.map@.dom().finite()
        &&& forall|i: int|
            0 <= i < self.entries@.len() ==> {
                &&& self.map@.contains_key(#[trigger] self.entries@[i].0)
                &&& self.map@[self.entries@[i].0] == self.entries@[i].1
            }
        &&& forall|k: K|
            #[trigger] self.map@.contains_key(k) ==> exists|i: int|
                0 <= i < self.entries@.len() && #[trigger] self.entries@[i].0 == k
        &&& forall|i: int, j: int|
            0 <= i < self.entries@.len() && 0 <= j < self.entries@.len() && i != j
                ==> #[trigger] self.entries@[i].0 != #[trigger] self.entries@[j].0
    }

    pub proof fn lemma_entry(&self, i: int)
        requires
            self.wf(),
            0 <= i < self.entries().len(),
        ensures
            self.view().contains_key(self.entries()[i].0),
            self.view()[self.entries()[i].0] == self.entries()[i].1,
    {
    }

    pub proof fn lemma_key_index(&self, k: K)
        requires
            self.wf(),
            self.view().contains_key(k),
        ensures
            0 <= self.key_index(k) < self.entries().len(),
            self.entries()[self.key_index(k)].0 == k,
    {
    }

    pub proof fn lemma_unique(&self, i: int, j: int)
        requires
            self.wf(),
            0 <= i < self.entries().len(),
            0 <= j < self.entries().len(),
            i != j,
        ensures
            self.entries()[i].0 != self.entries()[j].0,
    {
    }

    pub proof fn lemma_finite(&self)
        requires
            self.wf(),
        ensures
            self.view().dom().finite(),
            self.view().dom().len() == self.entries().len(),
    {
        let keys = self.entries@.map_values(|e: (K, V)| e.0);
        assert forall|i: int, j: int|
            0 <= i < keys.len() && 0 <= j < keys.len() && i != j implies keys[i] != keys[j] by {
            assert(self.entries@[i].0 != self.entries@[j].0);
        }
        assert(keys.no_duplicates());
        keys.unique_seq_to_set();
        assert forall|k: K| keys.to_set().contains(k) <==> self.map@.dom().contains(k) by {
            if self.map@.contains_key(k) {
                let i = choose|i: int| 0 <= i < self.entries@.len() && #[trigger] self.entries@[i].0 == k;
                assert(keys[i] == k);
            }
            if keys.to_set().contains(k) {
                let i = choose|i: int| 0 <= i < keys.len() && keys[i] == k;
                assert(self.entries@[i].0 == k);
            }
        }
        assert(keys.to_set() =~= self.map@.dom());
    }

    /// Two well-formed lists with the same pairs stand for the same map.
    pub proof fn lemma_same_entries_same_view(&self, other: &Self)
        requires
            self.wf(),
            other.wf(),
            self.entries() == other.entries(),
        ensures
            self.view() == other.view(),
    {
        assert forall|k: K| #[trigger] self.map@.contains_key(k) == other.map@.contains_key(k) by {
            if self.map@.contains_key(k) {
                let i = choose|i: int| 0 <= i < self.entries@.len() && #[trigger] self.entries@[i].0 == k;
                assert(other.entries@[i].0 == k);
            }
            if other.map@.contains_key(k) {
                let i = choose|i: int| 0 <= i < other.entries@.len() && #[trigger] other.entries@[i].0 == k;
                assert(self.entries@[i].0 == k);
            }
        }
        assert forall|k: K| #[trigger] self.map@.contains_key(k) implies self.map@[k] == other.map@[k] by {
            let i = choose|i: int| 0 <= i < self.entries@.len() && #[trigger] self.entries@[i].0 == k;
            assert(other.entries@[i].0 == k);
        }
        assert(self.map@ =~= other.map@);
    }

    /// Builds the map from a list of pairs, keeping their order; `None` when
    /// a key occurs twice.
    pub fn from_pairs(pairs: Vec<(K, V)>) -> (r: Option<Self>)
        ensures
            r is Some ==> unique_keys(pairs@),
            r is None ==> exists|i: int, j: int|
                0 <= i < pairs@.len() && 0 <= j < pairs@.len() && i != j && pairs@[i].0 == pairs@[j].0,
            r matches Some(m) ==> m.wf() && m.entries() == pairs@,
    {
        let ghost all = pairs@;
        let mut m: Self = AssocMap::new();
        let mut rest = pairs;
        while rest.len() > 0
            invariant
                m.wf(),
                all == pairs@,
                rest@ == all.skip(all.len() - rest@.len()),
                rest@.len() <= all.len(),
                m.entries() == all.take(all.len() - rest@.len()),
                forall|i: int, j: int|
                    0 <= i < m.entries().len() && 0 <= j < m.entries().len() && i != j ==> m.entries()[i].0
                        != m.entries()[j].0,
            decreases rest@.len(),
        {
            let n = rest.len();
            let ghost done = m.entries();
            let ghost d: int = all.len() - n;
            let (k, v) = rest.remove(0);
            proof {
                assert((k, v) == all[d]);
                assert(rest@ =~= all.skip(all.len() - rest@.len()));
            }
            if m.contains_key(&k) {
                proof {
                    m.lemma_key_index(k);
                    let i = m.key_index(k);
                    assert(all[i].0 == k);
                    assert(0 <= i < d);
                    assert(0 <= d < all.len());
                    assert(all[i].0 == all[d].0);
                    assert(exists|a: int, b: int|
                        0 <= a < all.len() && 0 <= b < all.len() && a != b && all[a].0 == all[b].0) by {
                        assert(0 <= i < all.len() && 0 <= d < all.len() && i != d && all[i].0 == all[d].0);
                    }
                }
                return None;
            }
            m.insert(k, v);
            proof {
                assert(all.take(all.len() - rest@.len()) =~= done.push((k, v)));
                assert forall|i: int, j: int|
                    0 <= i < m.entries().len() && 0 <= j < m.entries().len() && i != j implies m.entries()[i].0
                        != m.entries()[j].0 by {
                    m.lemma_unique(i, j);
                }
            }
        }
        proof {
            assert(all.take(all.len() as int) =~= all);
        }
        Some(m)
    }

    /// The stored pairs, in storage order.
    pub fn into_pairs(self) -> (pairs: Vec<(K, V)>)
        requires
            self.wf(),
        ensures
            pairs@ == self.entries(),
            unique_keys(pairs@),
    {
        proof {
            assert forall|i: int, j: int|
                0 <= i < self.entries@.len() && 0 <= j < self.entries@.len() && i != j implies self.entries@[i].0
                    != self.entries@[j].0 by {
                self.lemma_unique(i, j);
            }
        }
        self.entries
    }

    pub fn new() -> (m: Self)
        ensures
            m.wf(),
            m.view() == Map::<K, V>::empty(),
            m.entries() == Seq::<(K, V)>::empty(),
    {
        AssocMap { entries: Vec::new(), map: Ghost(Map::empty()) }
    }

    pub fn len(&self) -> (n: usize)
        ensures
            n == self.entries().len(),
    {
        self.entries.len()
    }

    pub fn entry_at(&self, i: usize) -> (e: &(K, V))
        requires
            i < self.entries().len(),
        ensures
            *e == self.entries()[i as int],
    {
        &self.entries[i]
    }

    /// Finds the position of `k`, if it is stored.
    pub fn find(&self, k: &K) -> (r: Option<usize>)
        requires
            self.wf(),
        ensures
            r is None <==> !self.view().contains_key(*k),
            r matches Some(i) ==> i == self.key_index(*k) && i < self.entries().len()
                && self.entries()[i as int].0 == *k,
    {
        let mut i: usize = 0;
        while i < self.entries.len()
            invariant
                self.wf(),
                i <= self.entries@.len(),
                forall|j: int| 0 <= j < i ==> self.entries@[j].0 != *k,
            decreases self.entries@.len() - i,
        {
            if self.entries[i].0.key_eq(k) {
                proof {
                    let c = self.key_index(*k);
                    assert(self.map@.contains_key(self.entries@[i as int].0));
                    if c != i {
                        assert(self.entries@[c].0 != self.entries@[i as int].0);
                    }
                }
                return Some(i);
            }
            i += 1;
        }
        proof {
            if self.map@.contains_key(*k) {
                let j = choose|j: int| 0 <= j < self.entries@.len() && #[trigger] self.entries@[j].0 == *k;
                assert(self.entries@[j].0 != *k);
            }
        }
        None
    }

    pub fn contains_key(&self, k: &K) -> (b: bool)
        requires
            self.wf(),
        ensures
            b == self.view().contains_key(*k),
    {
        self.find(k).is_some()
    }

    /// The value stored under `k`, if any.
    pub fn get(&self, k: &K) -> (r: Option<&V>)
        requires
            self.wf(),
        ensures
            r is Some <==> self.view().contains_key(*k),
            r matches Some(v) ==> *v == self.view()[*k],
    {
        match self.find(k) {
            Some(i) => {
                proof {
                    self.lemma_entry(i as int);
                }
                Some(&self.entries[i].1)
            },
            None => None,
        }
    }

    /// Stores `v` under `k`, replacing a value already there in place or
    /// appending a new pair.
    pub fn insert(&mut self, k: K, v: V)
        requires
            old(self).wf(),
        ensures
            final(self).wf(),
            final(self).view() == old(self).view().insert(k, v),
            old(self).view().contains_key(k) ==> final(self).entries() == old(self).entries().update(
                old(self).key_index(k),
                (k, v),
            ),
            !old(self).view().contains_key(k) ==> final(self).entries() == old(self).entries().push(
                (k, v),
            ),
    {
        let ghost old_entries = self.entries@;
        let ghost old_map = self.map@;
        match self.find(&k) {
            Some(i) => {
                self.entries.set(i, (k, v));
                proof {
                    self.map@ = old_map.insert(k, v);
                    assert forall|j: int| 0 <= j < self.entries@.len() implies {
                        &&& self.map@.contains_key(#[trigger] self.entries@[j].0)
                        &&& self.map@[self.entries@[j].0] == self.entries@[j].1
                    } by {
                        if j != i {
                            assert(old_entries[j].0 != old_entries[i as int].0);
                        }
                    }
                    assert forall|kk: K| #[trigger] self.map@.contains_key(kk) implies exists|j: int|
                        0 <= j < self.entries@.len() && #[trigger] self.entries@[j].0 == kk by {
                        if kk == k {
                            assert(self.entries@[i as int].0 == kk);
                        } else {
                            let j = choose|j: int| 0 <= j < old_entries.len() && #[trigger] old_entries[j].0 == kk;
                            assert(self.entries@[j].0 == kk);
                        }
                    }
                    assert forall|a: int, b: int|
                        0 <= a < self.entries@.len() && 0 <= b < self.entries@.len() && a != b
                        implies #[trigger] self.entries@[a].0 != #[trigger] self.entries@[b].0 by {
                        assert(old_entries[a].0 != old_entries[b].0);
                    }
                }
            },
            None => {
                self.entries.push((k, v));
                proof {
                    self.map@ = old_map.insert(k, v);
                    let n: int = old_entries.len() as int;
                    assert forall|j: int| 0 <= j < self.entries@.len() implies {
                        &&& self.map@.contains_key(#[trigger] self.entries@[j].0)
                        &&& self.map@[self.entries@[j].0] == self.entries@[j].1
                    } by {
                        if j < n {
                            assert(old_map.contains_key(old_entries[j].0));
                        }
                    }
                    assert forall|kk: K| #[trigger] self.map@.contains_key(kk) implies exists|j: int|
                        0 <= j < self.entries@.len() && #[trigger] self.entries@[j].0 == kk by {
                        if kk == k {
                            assert(self.entries@[n].0 == kk);
                        } else {
                            let j = choose|j: int| 0 <= j < old_entries.len() && #[trigger] old_entries[j].0 == kk;
                            assert(self.entries@[j].0 == kk);
                        }
                    }
                    assert forall|a: int, b: int|
                        0 <= a < self.entries@.len() && 0 <= b < self.entries@.len() && a != b
                        implies #[trigger] self.entries@[a].0 != #[trigger] self.entries@[b].0 by {
                        if a < n && b < n {
                            assert(old_entries[a].0 != old_entries[b].0);
                        } else if a == n {
                            assert(old_map.contains_key(old_entries[b].0));
                        } else {
                            assert(old_map.contains_key(old_entries[a].0));
                        }
                    }
                }
            },
        }
    }

    /// Removes the pair stored under `k`, if any, and returns its value.
    pub fn remove(&mut self, k: &K) -> (r: Option<V>)
        requires
            old(self).wf(),
        ensures
            final(self).wf(),
            final(self).view() == old(self).view().remove(*k),
            r is Some <==> old(self).view().contains_key(*k),
            r matches Some(v) ==> v == old(self).view()[*k],
            old(self).view().contains_key(*k) ==> final(self).entries() == old(self).entries().remove(
                old(self).key_index(*k),
            ),
            !old(self).view().contains_key(*k) ==> final(self).entries() == old(self).entries(),
    {
        let ghost old_entries = self.entries@;
        let ghost old_map = self.map@;
        match self.find(k) {
            Some(i) => {
                proof {
                    self.lemma_entry(i as int);
                }
                let (_, v) = self.entries.remove(i);
                proof {
                    self.map@ = old_map.remove(*k);
                    let n: int = old_entries.len() as int;
                    assert forall|j: int| 0 <= j < self.entries@.len() implies {
                        &&& self.map@.contains_key(#[trigger] self.entries@[j].0)
                        &&& self.map@[self.entries@[j].0] == self.entries@[j].1
                    } by {
                        if j < i {
                            assert(self.entries@[j] == old_entries[j]);
                            assert(old_entries[j].0 != old_entries[i as int].0);
                        } else {
                            assert(self.entries@[j] == old_entries[j + 1]);
                            assert(old_entries[j + 1].0 != old_entries[i as int].0);
                        }
                    }
                    assert forall|kk: K| #[trigger] self.map@.contains_key(kk) implies exists|j: int|
                        0 <= j < self.entries@.len() && #[trigger] self.entries@[j].0 == kk by {
                        let j = choose|j: int| 0 <= j < old_entries.len() && #[trigger] old_entries[j].0 == kk;
                        if j < i {
                            assert(self.entries@[j].0 == kk);
                        } else {
                            assert(j != i);
                            assert(self.entries@[j - 1].0 == kk);
                        }
                    }
                    assert forall|a: int, b: int|
                        0 <= a < self.entries@.len() && 0 <= b < self.entries@.len() && a != b
                        implies #[trigger] self.entries@[a].0 != #[trigger] self.entries@[b].0 by {
                        let oa = if a < i { a } else { a + 1 };
                        let ob = if b < i { b } else { b + 1 };
                        assert(self.entries@[a] == old_entries[oa]);
                        assert(self.entries@[b] == old_entries[ob]);
                        assert(old_entries[oa].0 != old_entries[ob].0);
                    }
                }
                Some(v)
            },
            None => {
                proof {
                    assert(old_map.remove(*k) =~= old_map);
                }
                None
            },
        }
    }
}

} // verus!
