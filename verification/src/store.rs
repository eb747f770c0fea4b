//! An insertion-ordered map from text keys to values, the storage behind the
//! in-memory FoundationDB provider.
use vstd::prelude::*;

verus! {

/// Values under distinct text keys, in the order their keys were first
/// inserted; replacing a value keeps its position.
pub struct KeyedStore<V> {
    keys: Vec<String>,
    vals: Vec<V>,
}

/// No key occurs twice.
pub open spec fn keys_unique(keys: Seq<Seq<char>>) -> bool {
    forall|i: int, j: int| 0 <= i < j < keys.len() ==> keys[i] != keys[j]
}

/// The keys after storing under `k`.
pub open spec fn put_keys(keys: Seq<Seq<char>>, k: Seq<char>) -> Seq<Seq<char>> {
    if keys.contains(k) {
        keys
    } else {
        keys.push(k)
    }
}

/// The values after storing `v` under `k`: in place, or at the end.
pub open spec fn put_vals<V>(keys: Seq<Seq<char>>, vals: Seq<V>, k: Seq<char>, v: V) -> Seq<V> {
    if keys.contains(k) {
        vals.update(keys.index_of(k), v)
    } else {
        vals.push(v)
    }
}

/// The value under `k`, if any.
pub open spec fn value_at<V>(keys: Seq<Seq<char>>, vals: Seq<V>, k: Seq<char>) -> Option<V> {
    if keys.contains(k) {
        Some(vals[keys.index_of(k)])
    } else {
        None
    }
}

/// The sequence under `k`, empty when absent.
pub open spec fn seq_value_at<T>(keys: Seq<Seq<char>>, vals: Seq<Seq<T>>, k: Seq<char>) -> Seq<T> {
    if keys.contains(k) {
        vals[keys.index_of(k)]
    } else {
        Seq::empty()
    }
}

/// The keys after storing under each of `nk` in turn.
pub open spec fn puts_keys(keys: Seq<Seq<char>>, nk: Seq<Seq<char>>) -> Seq<Seq<char>>
    decreases nk.len(),
{
    if nk.len() == 0 {
        keys
    } else {
        put_keys(puts_keys(keys, nk.drop_last()), nk.last())
    }
}

/// The values after storing each of `nv` under the matching key of `nk` in turn.
pub open spec fn puts_vals<V>(keys: Seq<Seq<char>>, vals: Seq<V>, nk: Seq<Seq<char>>, nv: Seq<V>) -> Seq<
    V,
>
    decreases nk.len(),
{
    if nk.len() == 0 {
        vals
    } else {
        put_vals(
            puts_keys(keys, nk.drop_last()),
            puts_vals(keys, vals, nk.drop_last(), nv.drop_last()),
            nk.last(),
            nv.last(),
        )
    }
}

/// The concatenation of the sequences of `s`, in order.
pub open spec fn concat_all<T>(s: Seq<Seq<T>>) -> Seq<T>
    decreases s.len(),
{
    if s.len() == 0 {
        Seq::empty()
    } else {
        concat_all(s.drop_last()) + s.last()
    }
}

impl<V> KeyedStore<V> {
    #[verifier::type_invariant]
    spec fn wf(self) -> bool {
        &&& self.keys@.len() == self.vals@.len()
        &&& keys_unique(self.keys@.map_values(|k: String| k@))
    }

    /// The keys, in insertion order.
    pub closed spec fn key_seq(self) -> Seq<Seq<char>> {
        self.keys@.map_values(|k: String| k@)
    }

    /// The values, position by position with `key_seq`.
    pub closed spec fn val_seq(self) -> Seq<V> {
        self.vals@
    }

    /// Keys and values line up and no key occurs twice.
    pub open spec fn well_formed(self) -> bool {
        &&& self.key_seq().len() == self.val_seq().len()
        &&& keys_unique(self.key_seq())
    }

    /// The position of `k`, or -1.
    pub open spec fn position(self, k: Seq<char>) -> int {
        if self.key_seq().contains(k) {
            self.key_seq().index_of(k)
        } else {
            -1
        }
    }

    /// The store as a map.
    pub open spec fn view_map(self) -> Map<Seq<char>, V> {
        Map::new(
            |k: Seq<char>| self.key_seq().contains(k),
            |k: Seq<char>| self.val_seq()[self.key_seq().index_of(k)],
        )
    }

    /// The empty store.
    pub fn new() -> (s: Self)
        ensures
            s.key_seq() == Seq::<Seq<char>>::empty(),
            s.val_seq() == Seq::<V>::empty(),
            s.well_formed(),
    {
        let s = KeyedStore { keys: Vec::new(), vals: Vec::new() };
        assert(s.key_seq() =~= Seq::<Seq<char>>::empty());
        s
    }

    /// The number of entries.
    pub fn len(&self) -> (n: usize)
        ensures
            n == self.key_seq().len(),
            self.well_formed(),
    {
        proof {
            use_type_invariant(self);
        }
        self.keys.len()
    }

    /// The key at position `i`.
    pub fn key_at(&self, i: usize) -> (k: &String)
        requires
            i < self.key_seq().len(),
        ensures
            k@ == self.key_seq()[i as int],
            self.well_formed(),
    {
        proof {
            use_type_invariant(self);
        }
        &self.keys[i]
    }

    /// The value at position `i`.
    pub fn val_at(&self, i: usize) -> (v: &V)
        requires
            i < self.key_seq().len(),
        ensures
            *v == self.val_seq()[i as int],
            self.well_formed(),
    {
        proof {
            use_type_invariant(self);
        }
        &self.vals[i]
    }

    /// The position of key `k`, if it is stored.
    pub fn find(&self, k: &str) -> (r: Option<usize>)
        ensures
            self.well_formed(),
            match r {
                Some(i) => i < self.key_seq().len() && self.key_seq()[i as int] == k@
                    && self.position(k@) == i,
                None => !self.key_seq().contains(k@) && self.position(k@) == -1,
            },
    {
        proof {
            use_type_invariant(self);
        }
        let n = self.keys.len();
        let mut i: usize = 0;
        while i < n
            invariant
                n == self.keys@.len(),
                i <= n,
                self.key_seq().len() == n,
                self.well_formed(),
                forall|j: int| 0 <= j < i ==> self.key_seq()[j] != k@,
            decreases n - i,
        {
            assert(self.key_seq()[i as int] == self.keys@[i as int]@);
            if crate::text::same_text(self.keys[i].as_str(), k) {
                proof {
                    self.lemma_index_of(i as int);
                }
                return Some(i);
            }
            i = i + 1;
        }
        None
    }

    /// The value stored under `k`.
    pub fn get(&self, k: &str) -> (r: Option<&V>)
        ensures
            self.well_formed(),
            match r {
                Some(v) => self.view_map().contains_key(k@) && *v == self.view_map()[k@],
                None => !self.view_map().contains_key(k@),
            },
    {
        match self.find(k) {
            Some(i) => Some(&self.vals[i]),
            None => None,
        }
    }

    /// In a store without repeated keys, the key at position `i` has index `i`.
    pub proof fn lemma_index_of(self, i: int)
        requires
            self.well_formed(),
            0 <= i < self.key_seq().len(),
        ensures
            self.key_seq().contains(self.key_seq()[i]),
            self.key_seq().index_of(self.key_seq()[i]) == i,
            self.position(self.key_seq()[i]) == i,
    {
        let ks = self.key_seq();
        assert(ks.contains(ks[i]));
        let j = ks.index_of(ks[i]);
        assert(0 <= j < ks.len() && ks[j] == ks[i]);
        if j < i {
            assert(ks[j] != ks[i]);
        } else if j > i {
            assert(ks[i] != ks[j]);
        }
    }

    /// Stores `v` under `k`: in place when `k` is present, at the end otherwise.
    pub fn put(&mut self, k: String, v: V)
        ensures
            final(self).well_formed(),
            old(self).key_seq().contains(k@) ==> {
                &&& final(self).key_seq() == old(self).key_seq()
                &&& final(self).val_seq() == old(self).val_seq().update(
                    old(self).key_seq().index_of(k@),
                    v,
                )
            },
            !old(self).key_seq().contains(k@) ==> {
                &&& final(self).key_seq() == old(self).key_seq().push(k@)
                &&& final(self).val_seq() == old(self).val_seq().push(v)
            },
            final(self).view_map() == old(self).view_map().insert(k@, v),
            final(self).key_seq() == put_keys(old(self).key_seq(), k@),
            final(self).val_seq() == put_vals(old(self).key_seq(), old(self).val_seq(), k@, v),
    {
        proof {
            use_type_invariant(&*self);
        }
        let found = self.find(k.as_str());
        let mut tmp = KeyedStore { keys: Vec::new(), vals: Vec::new() };
        proof {
            assert(tmp.key_seq() =~= Seq::<Seq<char>>::empty());
        }
        std::mem::swap(&mut tmp, self);
        proof {
            use_type_invariant(&tmp);
        }
        let KeyedStore { mut keys, mut vals } = tmp;
        let ghost ks0 = keys@.map_values(|s: String| s@);
        let ghost vs0 = vals@;
        match found {
            Some(i) => {
                vals.set(i, v);
                assert(keys@.map_values(|s: String| s@) =~= ks0);
                *self = KeyedStore { keys, vals };
            },
            None => {
                keys.push(k);
                vals.push(v);
                assert(keys@.map_values(|s: String| s@) =~= ks0.push(k@));
                *self = KeyedStore { keys, vals };
            },
        }
        proof {
            use_type_invariant(&*self);
            let m0 = old(self).view_map();
            let m1 = self.view_map();
            assert forall|q: Seq<char>| #[trigger] m1.contains_key(q) == m0.insert(k@, v).contains_key(q)
                by {
                if q != k@ && old(self).key_seq().contains(q) {
                    let j = old(self).key_seq().index_of(q);
                    assert(self.key_seq()[j] == q);
                }
                if q == k@ {
                    if found is None {
                        assert(self.key_seq()[self.key_seq().len() - 1] == k@);
                    }
                }
            }
            assert forall|q: Seq<char>| m1.contains_key(q) implies #[trigger] m1[q] == m0.insert(
                k@,
                v,
            )[q] by {
                let j = self.key_seq().index_of(q);
                self.lemma_index_of(j);
                if q != k@ {
                    assert(old(self).key_seq().contains(q)) by {
                        if found is None {
                            assert(j < old(self).key_seq().len());
                        }
                        assert(old(self).key_seq()[j] == q);
                    }
                    old(self).lemma_index_of(j);
                } else {
                    if found is Some {
                        old(self).lemma_index_of(found->0 as int);
                    }
                }
            }
            assert(m1 =~= m0.insert(k@, v));
        }
    }
}

/// The sequence stored under `k`, empty when absent.
pub open spec fn seq_at<T>(m: Map<Seq<char>, Vec<T>>, k: Seq<char>) -> Seq<T> {
    if m.contains_key(k) {
        m[k]@
    } else {
        Seq::empty()
    }
}

impl<T> KeyedStore<Vec<T>> {
    /// The stored sequences, position by position with `key_seq`.
    pub open spec fn seq_vals(self) -> Seq<Seq<T>> {
        self.val_seq().map_values(|v: Vec<T>| v@)
    }

    /// Stores the sequence `v` under `k`.
    pub fn put_seq(&mut self, k: String, v: Vec<T>)
        ensures
            final(self).well_formed(),
            final(self).key_seq() == put_keys(old(self).key_seq(), k@),
            final(self).seq_vals() == put_vals(old(self).key_seq(), old(self).seq_vals(), k@, v@),
    {
        proof {
            use_type_invariant(&*self);
        }
        let ghost vv = v@;
        let ghost kk = k@;
        self.put(k, v);
        proof {
            let ks = old(self).key_seq();
            if ks.contains(kk) {
                let idx = ks.index_of(kk);
                assert(self.seq_vals() =~= old(self).seq_vals().update(idx, vv));
            } else {
                assert(self.seq_vals() =~= old(self).seq_vals().push(vv));
            }
        }
    }

    /// The sequence stored under `k`, if any.
    pub fn get_seq(&self, k: &str) -> (r: Option<&Vec<T>>)
        ensures
            self.well_formed(),
            match r {
                Some(v) => self.key_seq().contains(k@) && v@ == seq_value_at(
                    self.key_seq(),
                    self.seq_vals(),
                    k@,
                ),
                None => !self.key_seq().contains(k@) && seq_value_at(
                    self.key_seq(),
                    self.seq_vals(),
                    k@,
                ) == Seq::<T>::empty(),
            },
    {
        match self.find(k) {
            Some(i) => Some(self.val_at(i)),
            None => None,
        }
    }

    /// Appends `item` to the sequence under `k`, starting one when absent.
    pub fn append(&mut self, k: String, item: T)
        ensures
            final(self).well_formed(),
            final(self).view_map().contains_key(k@),
            final(self).view_map().remove(k@) == old(self).view_map().remove(k@),
            seq_at(final(self).view_map(), k@) == seq_at(old(self).view_map(), k@).push(item),
            old(self).key_seq().contains(k@) ==> final(self).key_seq() == old(self).key_seq(),
            !old(self).key_seq().contains(k@) ==> final(self).key_seq() == old(self).key_seq().push(
                k@,
            ),
            final(self).key_seq() == put_keys(old(self).key_seq(), k@),
            final(self).seq_vals() == put_vals(
                old(self).key_seq(),
                old(self).seq_vals(),
                k@,
                seq_value_at(old(self).key_seq(), old(self).seq_vals(), k@).push(item),
            ),
    {
        proof {
            use_type_invariant(&*self);
        }
        let found = self.find(k.as_str());
        let mut tmp = KeyedStore { keys: Vec::new(), vals: Vec::new() };
        proof {
            assert(tmp.key_seq() =~= Seq::<Seq<char>>::empty());
        }
        std::mem::swap(&mut tmp, self);
        proof {
            use_type_invariant(&tmp);
        }
        let KeyedStore { mut keys, mut vals } = tmp;
        let ghost ks0 = keys@.map_values(|s: String| s@);
        let ghost vs0 = vals@;
        match found {
            Some(i) => {
                vals[i].push(item);
                assert(keys@.map_values(|s: String| s@) =~= ks0);
                *self = KeyedStore { keys, vals };
            },
            None => {
                let mut fresh: Vec<T> = Vec::new();
                fresh.push(item);
                keys.push(k);
                vals.push(fresh);
                assert(keys@.map_values(|s: String| s@) =~= ks0.push(k@));
                *self = KeyedStore { keys, vals };
            },
        }
        proof {
            use_type_invariant(&*self);
            let m0 = old(self).view_map();
            let m1 = self.view_map();
            assert(self.key_seq().contains(k@)) by {
                match found {
                    Some(i) => {
                        assert(self.key_seq()[i as int] == k@);
                    },
                    None => {
                        assert(self.key_seq()[self.key_seq().len() - 1] == k@);
                    },
                }
            }
            let kk = self.key_seq().index_of(k@);
            self.lemma_index_of(kk);
            match found {
                Some(i) => {
                    old(self).lemma_index_of(i as int);
                },
                None => {},
            }
            assert forall|q: Seq<char>| #[trigger] m1.remove(k@).contains_key(q) == m0.remove(
                k@,
            ).contains_key(q) by {
                if q != k@ && old(self).key_seq().contains(q) {
                    let j = old(self).key_seq().index_of(q);
                    assert(self.key_seq()[j] == q);
                }
            }
            assert forall|q: Seq<char>| m1.remove(k@).contains_key(q) implies #[trigger] m1.remove(
                k@,
            )[q] == m0.remove(k@)[q] by {
                let j = self.key_seq().index_of(q);
                self.lemma_index_of(j);
                assert(old(self).key_seq().contains(q)) by {
                    if found is None {
                        assert(j < old(self).key_seq().len());
                    }
                    assert(old(self).key_seq()[j] == q);
                }
                old(self).lemma_index_of(j);
            }
            assert(m1.remove(k@) =~= m0.remove(k@));
            assert(seq_at(m1, k@) =~= seq_at(m0, k@).push(item));
            let sv = seq_value_at(old(self).key_seq(), old(self).seq_vals(), k@).push(item);
            assert(self.seq_vals() =~= put_vals(old(self).key_seq(), old(self).seq_vals(), k@, sv));
        }
    }
}

} // verus!
