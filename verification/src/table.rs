//! An insertion-ordered association table with unique keys.
//!
//! Every keyed store of the runtime (objects, nodes, actors, jobs, task
//! statuses, shared-memory regions) is one of these. Its abstract value is a
//! `Map` from key views to values; the entry order is exposed separately as
//! `key_seq` / `val_seq` so that listings ("all nodes", "all jobs") can be
//! stated exactly.

use vstd::prelude::*;

verus! {

/// Executable equality on keys that agrees with equality of their views.
pub trait KeyEq: View + Sized {
    fn key_eq(&self, other: &Self) -> (b: bool)
        ensures
            b == (self@ == other@),
    ;
}

impl KeyEq for String {
    fn key_eq(&self, other: &Self) -> (b: bool) {
        *self == *other
    }
}

/// The map denoted by parallel key and value sequences.
pub open spec fn map_of<KV, V>(ks: Seq<KV>, vs: Seq<V>) -> Map<KV, V> {
    Map::new(|k: KV| ks.contains(k), |k: KV| vs[ks.index_of(k)])
}

pub struct Table<K, V> {
    keys: Vec<K>,
    vals: Vec<V>,
}

impl<K: View, V> Table<K, V> {
    /// The key views, in entry order.
    pub closed spec fn key_seq(&self) -> Seq<K::V> {
        self.keys@.map_values(|k: K| k@)
    }

    /// The values, in entry order.
    pub closed spec fn val_seq(&self) -> Seq<V> {
        self.vals@
    }

    /// The two entry sequences have equal length and no key occurs twice.
    pub open spec fn wf(&self) -> bool {
        &&& self.key_seq().len() == self.val_seq().len()
        &&& self.key_seq().no_duplicates()
    }
}

impl<K: View, V> View for Table<K, V> {
    type V = Map<K::V, V>;

    open spec fn view(&self) -> Map<K::V, V> {
        map_of(self.key_seq(), self.val_seq())
    }
}

/// With unique keys, the value stored at position `i` is the one the map
/// gives for the key at position `i`.
pub proof fn lemma_map_of_at<KV, V>(ks: Seq<KV>, vs: Seq<V>, i: int)
    requires
        ks.no_duplicates(),
        0 <= i < ks.len(),
    ensures
        map_of(ks, vs).contains_key(ks[i]),
        map_of(ks, vs)[ks[i]] == vs[i],
{
    assert(ks.contains(ks[i]));
    let j = ks.index_of(ks[i]);
    assert(0 <= j < ks.len() && ks[j] == ks[i]);
}

/// Overwriting the value at position `i` overwrites the map entry of the key
/// at position `i`.
pub proof fn lemma_map_of_update<KV, V>(ks: Seq<KV>, vs: Seq<V>, i: int, v: V)
    requires
        ks.no_duplicates(),
        ks.len() == vs.len(),
        0 <= i < ks.len(),
    ensures
        map_of(ks, vs.update(i, v)) == map_of(ks, vs).insert(ks[i], v),
{
    let vs1 = vs.update(i, v);
    assert forall|key: KV| #[trigger] map_of(ks, vs1).contains_key(key) implies
        map_of(ks, vs).insert(ks[i], v).contains_key(key) && map_of(ks, vs1)[key] == map_of(ks, vs).insert(ks[i], v)[key] by {
        let j = ks.index_of(key);
        lemma_map_of_at(ks, vs, j);
        lemma_map_of_at(ks, vs1, j);
    }
    assert(map_of(ks, vs1) =~= map_of(ks, vs).insert(ks[i], v));
}

/// The domain of the map has as many elements as there are entries.
pub proof fn lemma_map_of_len<KV, V>(ks: Seq<KV>, vs: Seq<V>)
    requires
        ks.no_duplicates(),
    ensures
        map_of(ks, vs).dom() == ks.to_set(),
        map_of(ks, vs).dom().finite(),
        map_of(ks, vs).dom().len() == ks.len(),
{
    assert(map_of(ks, vs).dom() =~= ks.to_set());
    ks.unique_seq_to_set();
    vstd::seq_lib::seq_to_set_is_finite(ks);
}

/// `s` lists the values of `m`, one entry per key.
pub open spec fn lists_values<KV, V>(m: Map<KV, V>, s: Seq<V>) -> bool {
    &&& m.dom().finite()
    &&& s.len() == m.dom().len()
    &&& s.to_set() == m.values()
}

/// Listing after a write: the record written is listed, and the listing
/// grows by one entry exactly when the key was new.
pub proof fn law_listing_after_write<KV, V>(m: Map<KV, V>, k: KV, v: V, s: Seq<V>)
    requires
        m.dom().finite(),
        lists_values(m.insert(k, v), s),
    ensures
        s.contains(v),
        s.len() == if m.contains_key(k) { m.dom().len() } else { m.dom().len() + 1 },
{
    assert(m.insert(k, v).contains_key(k) && m.insert(k, v)[k] == v);
    assert(m.insert(k, v).values().contains(v));
    assert(s.to_set().contains(v));
    assert(m.insert(k, v).dom() =~= m.dom().insert(k));
}

impl<K: View, V> Table<K, V> {
    /// The value sequence lists the map's values, one entry per key.
    pub proof fn lemma_listing(&self)
        requires
            self.wf(),
        ensures
            lists_values(self@, self.val_seq()),
    {
        let ks = self.key_seq();
        let vs = self.val_seq();
        lemma_map_of_len(ks, vs);
        assert forall|v: V| vs.to_set().contains(v) <==> #[trigger] self@.values().contains(v) by {
            if vs.contains(v) {
                let i = vs.index_of(v);
                lemma_map_of_at(ks, vs, i);
                assert(self@.contains_key(ks[i]) && self@[ks[i]] == v);
            }
            if self@.values().contains(v) {
                let k = choose|k: K::V| self@.contains_key(k) && self@[k] == v;
                let j = ks.index_of(k);
                lemma_map_of_at(ks, vs, j);
                assert(vs[j] == v);
            }
        }
        assert(vs.to_set() =~= self@.values());
    }
}

impl<K: KeyEq, V> Table<K, V> {
    pub fn new() -> (t: Self)
        ensures
            t.wf(),
            t@ == Map::<K::V, V>::empty(),
            t.key_seq() == Seq::<K::V>::empty(),
            t.val_seq() == Seq::<V>::empty(),
    {
        let t = Table { keys: Vec::new(), vals: Vec::new() };
        assert(t.key_seq() =~= Seq::<K::V>::empty());
        assert(t@ =~= Map::<K::V, V>::empty());
        t
    }

    /// Number of entries.
    pub fn len(&self) -> (n: usize)
        requires
            self.wf(),
        ensures
            n == self.key_seq().len(),
            n == self@.dom().len(),
            self@.dom().finite(),
    {
        proof {
            lemma_map_of_len(self.key_seq(), self.val_seq());
        }
        self.keys.len()
    }

    /// Position of the entry with key `k`, if there is one.
    pub fn find(&self, k: &K) -> (r: Option<usize>)
        requires
            self.wf(),
        ensures
            match r {
                Some(i) => i < self.key_seq().len() && self.key_seq()[i as int] == k@,
                None => !self.key_seq().contains(k@),
            },
            r is Some <==> self@.contains_key(k@),
    {
        let mut i: usize = 0;
        while i < self.keys.len()
            invariant
                i <= self.keys@.len(),
                forall|j: int| 0 <= j < i ==> self.key_seq()[j] != k@,
            decreases self.keys@.len() - i,
        {
            if self.keys[i].key_eq(k) {
                assert(self.key_seq()[i as int] == k@);
                assert(self.key_seq().contains(k@));
                return Some(i);
            }
            i = i + 1;
        }
        None
    }

    /// The key stored at position `i`.
    pub fn key_at(&self, i: usize) -> (k: &K)
        requires
            self.wf(),
            i < self.key_seq().len(),
        ensures
            k@ == self.key_seq()[i as int],
    {
        &self.keys[i]
    }

    /// The value stored at position `i`.
    pub fn val_at(&self, i: usize) -> (v: &V)
        requires
            self.wf(),
            i < self.key_seq().len(),
        ensures
            *v == self.val_seq()[i as int],
            self@.contains_key(self.key_seq()[i as int]),
            *v == self@[self.key_seq()[i as int]],
    {
        proof {
            lemma_map_of_at(self.key_seq(), self.val_seq(), i as int);
        }
        &self.vals[i]
    }

    /// Mutable access to the value at position `i`; the keys stay as they are.
    pub fn val_at_mut(&mut self, i: usize) -> (v: &mut V)
        requires
            old(self).wf(),
            i < old(self).key_seq().len(),
        ensures
            *v == old(self).val_seq()[i as int],
            final(self).key_seq() == old(self).key_seq(),
            final(self).val_seq() == old(self).val_seq().update(i as int, *final(v)),
    {
        let ghost ks0 = self.key_seq();
        let r = &mut self.vals[i];
        proof {
            assert(self.keys@.map_values(|k: K| k@) == ks0);
        }
        r
    }

    /// The values, in entry order.
    pub fn values(&self) -> (vs: &Vec<V>)
        ensures
            vs@ == self.val_seq(),
    {
        &self.vals
    }

    pub fn contains_key(&self, k: &K) -> (b: bool)
        requires
            self.wf(),
        ensures
            b == self@.contains_key(k@),
    {
        self.find(k).is_some()
    }

    pub fn get(&self, k: &K) -> (r: Option<&V>)
        requires
            self.wf(),
        ensures
            match r {
                Some(v) => self@.contains_key(k@) && *v == self@[k@],
                None => !self@.contains_key(k@),
            },
    {
        match self.find(k) {
            Some(i) => Some(self.val_at(i)),
            None => None,
        }
    }

    /// Inserts or overwrites the value for `k`. An existing key keeps its
    /// position; a new key goes to the end.
    pub fn insert(&mut self, k: K, v: V)
        requires
            old(self).wf(),
        ensures
            final(self).wf(),
            final(self)@ == old(self)@.insert(k@, v),
            old(self)@.contains_key(k@) ==> final(self).key_seq() == old(self).key_seq(),
            !old(self)@.contains_key(k@) ==> final(self).key_seq() == old(self).key_seq().push(k@),
            !old(self)@.contains_key(k@) ==> final(self).val_seq() == old(self).val_seq().push(v),
            old(self)@.contains_key(k@) ==> final(self).val_seq() == old(self).val_seq().update(
                old(self).key_seq().index_of(k@),
                v,
            ),
    {
        let ghost ks0 = self.key_seq();
        let ghost vs0 = self.val_seq();
        match self.find(&k) {
            Some(i) => {
                let ghost kv = k@;
                self.vals.set(i, v);
                proof {
                    assert(self.key_seq() =~= ks0);
                    assert(self.val_seq() == vs0.update(i as int, v));
                    assert forall|key: K::V| #[trigger] self@.contains_key(key) implies
                        old(self)@.insert(kv, v).contains_key(key) && self@[key] == old(self)@.insert(kv, v)[key] by {
                        let j = ks0.index_of(key);
                        lemma_map_of_at(ks0, vs0, j);
                        lemma_map_of_at(ks0, self.val_seq(), j);
                    }
                    assert(self@ =~= old(self)@.insert(kv, v));
                }
            },
            None => {
                let ghost kv = k@;
                self.keys.push(k);
                self.vals.push(v);
                proof {
                    assert(self.key_seq() =~= ks0.push(kv));
                    assert(self.val_seq() =~= vs0.push(v));
                    let ks1 = self.key_seq();
                    let vs1 = self.val_seq();
                    assert(ks1.no_duplicates()) by {
                        assert forall|a: int, b: int| 0 <= a < ks1.len() && 0 <= b < ks1.len() && a != b
                            implies ks1[a] != ks1[b] by {
                            if a < ks0.len() && b < ks0.len() {
                                assert(ks1[a] == ks0[a]);
                                assert(ks1[b] == ks0[b]);
                            } else if a < ks0.len() {
                                assert(ks1[a] == ks0[a]);
                                assert(ks0.contains(ks0[a]));
                            } else {
                                assert(ks1[b] == ks0[b]);
                                assert(ks0.contains(ks0[b]));
                            }
                        }
                    }
                    assert forall|key: K::V| #[trigger] self@.contains_key(key) implies
                        old(self)@.insert(kv, v).contains_key(key) && self@[key] == old(self)@.insert(kv, v)[key] by {
                        let j = ks1.index_of(key);
                        lemma_map_of_at(ks1, vs1, j);
                        if key != kv {
                            assert(j < ks0.len());
                            assert(ks0[j] == key);
                            lemma_map_of_at(ks0, vs0, j);
                        } else {
                            lemma_map_of_at(ks1, vs1, ks0.len() as int);
                        }
                    }
                    assert forall|key: K::V| #[trigger] old(self)@.insert(kv, v).contains_key(key)
                        implies self@.contains_key(key) by {
                        if key == kv {
                            assert(ks1[ks0.len() as int] == kv);
                        } else {
                            let j = ks0.index_of(key);
                            assert(ks1[j] == ks0[j]);
                        }
                    }
                    assert(self@ =~= old(self)@.insert(kv, v));
                }
            },
        }
    }

    /// Removes the entry for `k`, returning its value. The other entries keep
    /// their relative order.
    pub fn remove(&mut self, k: &K) -> (r: Option<V>)
        requires
            old(self).wf(),
        ensures
            final(self).wf(),
            final(self)@ == old(self)@.remove(k@),
            match r {
                Some(v) => old(self)@.contains_key(k@) && v == old(self)@[k@],
                None => !old(self)@.contains_key(k@),
            },
            old(self)@.contains_key(k@) ==> final(self).key_seq() == old(self).key_seq().remove(
                old(self).key_seq().index_of(k@),
            ),
            old(self)@.contains_key(k@) ==> final(self).val_seq() == old(self).val_seq().remove(
                old(self).key_seq().index_of(k@),
            ),
            !old(self)@.contains_key(k@) ==> final(self).key_seq() == old(self).key_seq(),
            !old(self)@.contains_key(k@) ==> final(self).val_seq() == old(self).val_seq(),
    {
        let ghost ks0 = self.key_seq();
        let ghost vs0 = self.val_seq();
        match self.find(k) {
            Some(i) => {
                proof {
                    lemma_map_of_at(ks0, vs0, i as int);
                }
                let _ = self.keys.remove(i);
                let v = self.vals.remove(i);
                proof {
                    let ks1 = self.key_seq();
                    let vs1 = self.val_seq();
                    assert(ks1 =~= ks0.remove(i as int));
                    assert(vs1 =~= vs0.remove(i as int));
                    assert(ks1.no_duplicates()) by {
                        assert forall|a: int, b: int| 0 <= a < ks1.len() && 0 <= b < ks1.len() && a != b
                            implies ks1[a] != ks1[b] by {
                            let a0 = if a < i { a } else { a + 1 };
                            let b0 = if b < i { b } else { b + 1 };
                            assert(ks1[a] == ks0[a0]);
                            assert(ks1[b] == ks0[b0]);
                        }
                    }
                    assert forall|key: K::V| #[trigger] self@.contains_key(key) implies
                        old(self)@.remove(k@).contains_key(key) && self@[key] == old(self)@.remove(k@)[key] by {
                        let j = ks1.index_of(key);
                        lemma_map_of_at(ks1, vs1, j);
                        let j0 = if j < i { j } else { j + 1 };
                        assert(ks1[j] == ks0[j0]);
                        assert(vs1[j] == vs0[j0]);
                        lemma_map_of_at(ks0, vs0, j0);
                    }
                    assert forall|key: K::V| #[trigger] old(self)@.remove(k@).contains_key(key)
                        implies self@.contains_key(key) by {
                        let j0 = ks0.index_of(key);
                        assert(j0 != i);
                        let j = if j0 < i { j0 } else { j0 - 1 };
                        assert(ks1[j] == ks0[j0]);
                    }
                    assert(self@ =~= old(self)@.remove(k@));
                }
                Some(v)
            },
            None => {
                assert(self@ =~= old(self)@.remove(k@));
                None
            },
        }
    }

    /// Replaces the value at position `i`, returning the previous one; the
    /// key is unchanged.
    pub fn replace_at(&mut self, i: usize, v: V) -> (old_v: V)
        requires
            old(self).wf(),
            i < old(self).key_seq().len(),
        ensures
            final(self).wf(),
            old_v == old(self).val_seq()[i as int],
            old_v == old(self)@[old(self).key_seq()[i as int]],
            final(self).key_seq() == old(self).key_seq(),
            final(self).val_seq() == old(self).val_seq().update(i as int, v),
            final(self)@ == old(self)@.insert(old(self).key_seq()[i as int], v),
    {
        proof {
            lemma_map_of_at(self.key_seq(), self.val_seq(), i as int);
        }
        let ghost ks0 = self.key_seq();
        let ghost vs0 = self.val_seq();
        let mut v = v;
        self.vals.set_and_swap(i, &mut v);
        proof {
            let kv = ks0[i as int];
            let vn = self.val_seq()[i as int];
            assert(self.key_seq() =~= ks0);
            assert forall|key: K::V| #[trigger] self@.contains_key(key) implies
                old(self)@.insert(kv, vn).contains_key(key) && self@[key] == old(self)@.insert(kv, vn)[key] by {
                let j = ks0.index_of(key);
                lemma_map_of_at(ks0, vs0, j);
                lemma_map_of_at(ks0, self.val_seq(), j);
            }
            assert(self@ =~= old(self)@.insert(kv, vn));
        }
        v
    }
}

} // verus!
