//! A map keyed by block root, kept as a sorted table.

use crate::types::Hash256;
use vstd::prelude::*;

verus! {

/// A finite map from block roots to values.
///
/// The keys are held in ascending order beside their values, so a lookup is a binary search.
pub struct RootMap<V> {
    keys: Vec<Hash256>,
    values: Vec<V>,
}

impl<V> View for RootMap<V> {
    type V = Map<Hash256, V>;

    closed spec fn view(&self) -> Map<Hash256, V> {
        Map::new(
            |k: Hash256| self.keys@.contains(k),
            |k: Hash256| self.values@[self.keys@.index_of(k)],
        )
    }
}

impl<V> RootMap<V> {
    /// Every key has one value, and the keys ascend.
    pub closed spec fn wf(&self) -> bool {
        &&& self.keys@.len() == self.values@.len()
        &&& forall|i: int, j: int|
            0 <= i < j < self.keys@.len() ==> (#[trigger] self.keys@[i]).precedes(
                #[trigger] self.keys@[j],
            )
    }

    /// The keys in the order in which `entry` numbers them.
    pub closed spec fn order(&self) -> Seq<Hash256> {
        self.keys@
    }

    /// The order lists every key of the map, and nothing else.
    pub proof fn lemma_order(&self)
        requires
            self.wf(),
        ensures
            self.order().len() == self@.len(),
            self.order().no_duplicates(),
            forall|k: Hash256| #[trigger] self@.contains_key(k) <==> self.order().contains(k),
    {
        self.lemma_len();
    }

    /// The entry at each position is what the map holds for that position's key.
    proof fn lemma_entry(&self, i: int)
        requires
            self.wf(),
            0 <= i < self.keys@.len(),
        ensures
            self@.contains_key(self.keys@[i]),
            self@[self.keys@[i]] == self.values@[i],
    {
        let k = self.keys@[i];
        let j = self.keys@.index_of(k);
        assert(self.keys@.contains(k));
        assert(self.keys@[j] == k);
        if j < i {
            assert(self.keys@[j].precedes(self.keys@[i]));
        } else if i < j {
            assert(self.keys@[i].precedes(self.keys@[j]));
        }
    }

    proof fn lemma_len(&self)
        requires
            self.wf(),
        ensures
            self@.dom().finite(),
            self@.len() == self.keys@.len(),
    {
        assert(self.keys@.no_duplicates()) by {
            assert forall|i: int, j: int|
                0 <= i < self.keys@.len() && 0 <= j < self.keys@.len() && i
                    != j implies self.keys@[i] != self.keys@[j] by {
                if i < j {
                    assert(self.keys@[i].precedes(self.keys@[j]));
                } else {
                    assert(self.keys@[j].precedes(self.keys@[i]));
                }
            }
        }
        self.keys@.unique_seq_to_set();
        assert(self@.dom() =~= self.keys@.to_set());
    }

    /// An empty map.
    pub fn new() -> (r: RootMap<V>)
        ensures
            r.wf(),
            r@ == Map::<Hash256, V>::empty(),
    {
        let r = RootMap { keys: Vec::new(), values: Vec::new() };
        assert(r@ =~= Map::<Hash256, V>::empty());
        r
    }

    /// The number of entries.
    pub fn len(&self) -> (r: usize)
        requires
            self.wf(),
        ensures
            self@.dom().finite(),
            r == self@.len(),
    {
        proof {
            self.lemma_len();
        }
        self.keys.len()
    }

    /// The entry numbered `i`.
    pub fn entry(&self, i: usize) -> (r: (Hash256, &V))
        requires
            self.wf(),
            i < self.order().len(),
        ensures
            r.0 == self.order()[i as int],
            self@.contains_key(r.0),
            self@[r.0] == *r.1,
    {
        proof {
            self.lemma_entry(i as int);
        }
        (self.keys[i], &self.values[i])
    }

    /// The first position whose key does not come before `key`.
    fn lower_bound(&self, key: &Hash256) -> (r: usize)
        requires
            self.wf(),
        ensures
            r <= self.keys@.len(),
            forall|i: int| 0 <= i < r ==> (#[trigger] self.keys@[i]).precedes(*key),
            forall|i: int| r <= i < self.keys@.len() ==> !(#[trigger] self.keys@[i]).precedes(*key),
    {
        let mut low: usize = 0;
        let mut high: usize = self.keys.len();
        while low < high
            invariant
                self.wf(),
                low <= high <= self.keys@.len(),
                forall|i: int| 0 <= i < low ==> (#[trigger] self.keys@[i]).precedes(*key),
                forall|i: int|
                    high <= i < self.keys@.len() ==> !(#[trigger] self.keys@[i]).precedes(*key),
            decreases high - low,
        {
            let mid: usize = low + (high - low) / 2;
            if self.keys[mid].is_before(key) {
                low = mid + 1;
            } else {
                high = mid;
            }
        }
        low
    }

    /// The value held for `key`.
    pub fn get(&self, key: &Hash256) -> (r: Option<&V>)
        requires
            self.wf(),
        ensures
            match r {
                Some(value) => self@.contains_key(*key) && self@[*key] == *value,
                None => !self@.contains_key(*key),
            },
    {
        let at = self.lower_bound(key);
        if at < self.keys.len() && self.keys[at] == *key {
            proof {
                self.lemma_entry(at as int);
            }
            Some(&self.values[at])
        } else {
            assert(!self.keys@.contains(*key)) by {
                if self.keys@.contains(*key) {
                    let i = self.keys@.index_of(*key);
                    assert(self.keys@[i] == *key);
                    assert(!self.keys@[i].precedes(*key));
                    if at < i {
                        assert(self.keys@[at as int].precedes(self.keys@[i]));
                    }
                }
            }
            None
        }
    }

    /// Whether `key` has a value.
    pub fn contains_key(&self, key: &Hash256) -> (r: bool)
        requires
            self.wf(),
        ensures
            r == self@.contains_key(*key),
    {
        self.get(key).is_some()
    }

    /// Holds `value` for `key`, in place of what was held before.
    pub fn insert(&mut self, key: Hash256, value: V)
        requires
            old(self).wf(),
        ensures
            final(self).wf(),
            final(self)@ == old(self)@.insert(key, value),
            old(self)@.contains_key(key) ==> final(self).order() == old(self).order(),
    {
        let ghost before = *self;
        let at = self.lower_bound(&key);
        if at < self.keys.len() && self.keys[at] == key {
            self.values.set(at, value);
            assert(self.keys@ == before.keys@);
        } else {
            assert(!self.keys@.contains(key)) by {
                if self.keys@.contains(key) {
                    let i = self.keys@.index_of(key);
                    assert(self.keys@[i] == key);
                    assert(!self.keys@[i].precedes(key));
                    if at < i {
                        assert(self.keys@[at as int].precedes(self.keys@[i]));
                    }
                }
            }
            self.keys.insert(at, key);
            self.values.insert(at, value);
        }
        proof {
            assert forall|i: int, j: int| 0 <= i < j < self.keys@.len() implies (
            #[trigger] self.keys@[i]).precedes(#[trigger] self.keys@[j]) by {
                if self.keys@ != before.keys@ {
                    if i < at && j > at {
                        assert(before.keys@[i].precedes(before.keys@[j - 1]));
                    } else if i == at {
                        assert(!before.keys@[j - 1].precedes(key));
                        if j - 1 > at {
                            assert(before.keys@[at as int].precedes(before.keys@[j - 1]));
                            assert(!before.keys@[at as int].precedes(key));
                        }
                    } else if i > at {
                        assert(before.keys@[i - 1].precedes(before.keys@[j - 1]));
                    }
                }
            }
            assert forall|k: Hash256| #[trigger] self@.contains_key(k) == before@.insert(
                key,
                value,
            ).contains_key(k) by {
                if before.keys@.contains(k) && self.keys@ != before.keys@ {
                    let i = before.keys@.index_of(k);
                    let j = if i < at { i } else { i + 1 };
                    assert(self.keys@[j] == k);
                }
                if k == key {
                    assert(self.keys@[at as int] == k);
                }
                if self.keys@.contains(k) && k != key && self.keys@ != before.keys@ {
                    let j = self.keys@.index_of(k);
                    assert(self.keys@[j] == k);
                    let i = if j < at { j } else { j - 1 };
                    assert(before.keys@[i] == k);
                }
            }
            assert forall|k: Hash256| self@.contains_key(k) implies #[trigger] self@[k]
                == before@.insert(key, value)[k] by {
                let j = self.keys@.index_of(k);
                assert(self.keys@[j] == k);
                self.lemma_entry(j);
                if k == key {
                    self.lemma_entry(at as int);
                } else {
                    let i = if self.keys@ == before.keys@ || j < at { j } else { j - 1 };
                    assert(before.keys@[i] == k);
                    before.lemma_entry(i);
                }
            }
            assert(self@ =~= before@.insert(key, value));
        }
    }

    /// Drops the entry at position `at`.
    fn remove_at(&mut self, at: usize)
        requires
            old(self).wf(),
            at < old(self).keys@.len(),
        ensures
            final(self).wf(),
            final(self).keys@ == old(self).keys@.remove(at as int),
            final(self)@ == old(self)@.remove(old(self).keys@[at as int]),
    {
        let ghost before = *self;
        let ghost key = self.keys@[at as int];
        self.keys.remove(at);
        self.values.remove(at);
        proof {
            assert forall|i: int, j: int| 0 <= i < j < self.keys@.len() implies (
            #[trigger] self.keys@[i]).precedes(#[trigger] self.keys@[j]) by {
                let bi = if i < at { i } else { i + 1 };
                let bj = if j < at { j } else { j + 1 };
                assert(before.keys@[bi].precedes(before.keys@[bj]));
            }
            assert forall|k: Hash256| #[trigger] self@.contains_key(k) == before@.remove(
                key,
            ).contains_key(k) by {
                if before.keys@.contains(k) && k != key {
                    let i = before.keys@.index_of(k);
                    assert(before.keys@[i] == k);
                    let j = if i < at { i } else { i - 1 };
                    assert(self.keys@[j] == k);
                }
                if self.keys@.contains(k) {
                    let j = self.keys@.index_of(k);
                    assert(self.keys@[j] == k);
                    let i = if j < at { j } else { j + 1 };
                    assert(before.keys@[i] == k);
                    if i < at {
                        assert(before.keys@[i].precedes(before.keys@[at as int]));
                    } else {
                        assert(before.keys@[at as int].precedes(before.keys@[i]));
                    }
                }
            }
            assert forall|k: Hash256| self@.contains_key(k) implies #[trigger] self@[k]
                == before@.remove(key)[k] by {
                let j = self.keys@.index_of(k);
                assert(self.keys@[j] == k);
                self.lemma_entry(j);
                let i = if j < at { j } else { j + 1 };
                assert(before.keys@[i] == k);
                before.lemma_entry(i);
            }
            assert(self@ =~= before@.remove(key));
        }
    }

    /// Drops every entry whose key `keep` turns down; `kept` says what `keep` answers.
    pub(crate) fn retain(
        &mut self,
        keep: impl Fn(&Hash256) -> bool,
        Ghost(kept): Ghost<spec_fn(Hash256) -> bool>,
    )
        requires
            old(self).wf(),
            forall|k: Hash256| #[trigger] call_requires(keep, (&k,)),
            forall|k: Hash256, b: bool| call_ensures(keep, (&k,), b) ==> b == kept(k),
        ensures
            final(self).wf(),
            final(self)@ == old(self)@.restrict(Set::new(kept)),
    {
        let ghost before = self@;
        let mut i: usize = 0;
        while i < self.keys.len()
            invariant
                self.wf(),
                i <= self.keys@.len(),
                forall|k: Hash256| #[trigger] call_requires(keep, (&k,)),
                forall|k: Hash256, b: bool| call_ensures(keep, (&k,), b) ==> b == kept(k),
                forall|j: int| 0 <= j < i ==> kept(#[trigger] self.keys@[j]),
                forall|k: Hash256| #[trigger]
                    self@.contains_key(k) ==> before.contains_key(k) && self@[k] == before[k],
                forall|k: Hash256| #[trigger]
                    before.contains_key(k) && kept(k) ==> self@.contains_key(k),
            decreases self.keys@.len() - i,
        {
            if keep(&self.keys[i]) {
                i = i + 1;
            } else {
                self.remove_at(i);
            }
        }
        proof {
            assert forall|k: Hash256| self@.contains_key(k) implies kept(k) by {
                let j = self.keys@.index_of(k);
                assert(self.keys@[j] == k);
            }
            assert(self@ =~= before.restrict(Set::new(kept)));
        }
    }
}

} // verus!
