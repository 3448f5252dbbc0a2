//! StrMap: a map keyed by strings, kept as a list of entries whose keys are
//! distinct. Its view is the map from each key's chars to its value.
use crate::text::str_eq;
use vstd::prelude::*;

verus! {

/// A map from string keys to values; entries keep the order of first insertion.
#[derive(Debug)]
pub struct StrMap<V> {
    entries: Vec<(String, V)>,
}

impl<V> StrMap<V> {
    /// The keys of the entries, in order.
    pub closed spec fn keys(&self) -> Seq<Seq<char>> {
        self.entries@.map_values(|e: (String, V)| e.0@)
    }

    /// The value of the entry at position `i`.
    pub closed spec fn value_at_spec(&self, i: int) -> V {
        self.entries@[i].1
    }

    /// Keys are distinct.
    #[verifier::type_invariant]
    pub closed spec fn distinct_keys(&self) -> bool {
        self.keys().no_duplicates()
    }

    /// The number of entries.
    pub open spec fn len_spec(&self) -> nat {
        self.keys().len()
    }
}

impl<V> View for StrMap<V> {
    type V = Map<Seq<char>, V>;

    closed spec fn view(&self) -> Map<Seq<char>, V> {
        Map::new(
            |k: Seq<char>| self.keys().contains(k),
            |k: Seq<char>| self.entries@[self.keys().index_of(k)].1,
        )
    }
}

impl<V> StrMap<V> {
    /// What is known of the view from the entries: each key maps to its own value,
    /// and nothing else is in the map.
    pub proof fn lemma_view(&self)
        requires
            self.distinct_keys(),
        ensures
            self.keys().no_duplicates(),
            forall|i: int| 0 <= i < self.len_spec() ==> #[trigger] self@.contains_key(self.keys()[i])
                && self@[self.keys()[i]] == self.value_at_spec(i),
            forall|k: Seq<char>| #[trigger] self@.contains_key(k) <==> self.keys().contains(k),
            self@.dom().finite(),
            self@.dom().len() == self.len_spec(),
    {
        assert forall|i: int| 0 <= i < self.len_spec() implies #[trigger] self@.contains_key(self.keys()[i])
            && self@[self.keys()[i]] == self.value_at_spec(i) by {
            let k = self.keys()[i];
            assert(self.keys().contains(k));
            let j = self.keys().index_of(k);
            assert(self.keys()[j] == k);
        }
        assert(self@.dom() =~= self.keys().to_set());
        self.keys().unique_seq_to_set();
    }

    /// Creates an empty map.
    pub fn new() -> (m: Self)
        ensures
            m@ == Map::<Seq<char>, V>::empty(),
            m.len_spec() == 0,
    {
        let m = StrMap { entries: Vec::new() };
        assert(m@ =~= Map::<Seq<char>, V>::empty());
        m
    }

    /// The position of the entry with key `key`, if any.
    fn position(&self, key: &str) -> (r: Option<usize>)
        ensures
            r matches Some(i) ==> i < self.len_spec() && self.keys()[i as int] == key@,
            r is None ==> !self.keys().contains(key@),
    {
        let mut i: usize = 0;
        while i < self.entries.len()
            invariant
                i <= self.entries@.len(),
                forall|j: int| 0 <= j < i ==> self.keys()[j] != key@,
            decreases self.entries@.len() - i,
        {
            if str_eq(self.entries[i].0.as_str(), key) {
                return Some(i);
            }
            i = i + 1;
        }
        None
    }

    /// The number of entries.
    pub fn len(&self) -> (n: usize)
        ensures
            n == self.len_spec(),
            n == self@.dom().len(),
            self.keys().no_duplicates(),
            forall|k: Seq<char>| #[trigger] self@.contains_key(k) <==> self.keys().contains(k),
            forall|i: int| 0 <= i < n ==> #[trigger] self@.contains_key(self.keys()[i]) && self@[self.keys()[i]]
                == self.value_at_spec(i),
    {
        proof {
            use_type_invariant(self);
            self.lemma_view();
        }
        self.entries.len()
    }

    /// Whether the map has no entries.
    pub fn is_empty(&self) -> (b: bool)
        ensures
            b == (self.len_spec() == 0),
            b == (self@.dom().len() == 0),
    {
        proof {
            use_type_invariant(self);
            self.lemma_view();
        }
        self.entries.len() == 0
    }

    /// Whether `key` has an entry.
    pub fn contains_key(&self, key: &str) -> (b: bool)
        ensures
            b == self@.contains_key(key@),
    {
        self.position(key).is_some()
    }

    /// The value stored under `key`, if any.
    pub fn get(&self, key: &str) -> (r: Option<&V>)
        ensures
            r == (if self@.contains_key(key@) {
                Some(&self@[key@])
            } else {
                None::<&V>
            }),
    {
        proof {
            use_type_invariant(self);
        }
        match self.position(key) {
            Some(i) => {
                proof {
                    assert(self.keys().contains(key@));
                    let j = self.keys().index_of(key@);
                    assert(self.keys()[j] == key@);
                }
                Some(&self.entries[i].1)
            },
            None => None,
        }
    }

    /// The key of the entry at position `i`.
    pub fn key_at(&self, i: usize) -> (k: &str)
        requires
            i < self.len_spec(),
        ensures
            k@ == self.keys()[i as int],
    {
        self.entries[i].0.as_str()
    }

    /// The value of the entry at position `i`.
    pub fn value_at(&self, i: usize) -> (v: &V)
        requires
            i < self.len_spec(),
        ensures
            *v == self.value_at_spec(i as int),
    {
        &self.entries[i].1
    }

    /// Stores `value` under `key`, replacing the value already there, and returns
    /// the value it replaced. A new key goes after the existing ones.
    pub fn insert(&mut self, key: String, value: V) -> (r: Option<V>)
        ensures
            final(self)@ == old(self)@.insert(key@, value),
            r == (if old(self)@.contains_key(key@) {
                Some(old(self)@[key@])
            } else {
                None::<V>
            }),
            old(self)@.contains_key(key@) ==> final(self).keys() == old(self).keys(),
            !old(self)@.contains_key(key@) ==> final(self).keys() == old(self).keys().push(key@),
    {
        proof {
            use_type_invariant(&*self);
        }
        let ghost old_keys = self.keys();
        let pos = self.position(key.as_str());
        let mut entries: Vec<(String, V)> = Vec::new();
        std::mem::swap(&mut entries, &mut self.entries);
        let ghost e0 = entries@;
        match pos {
            Some(i) => {
                let (_k, old_value) = entries.remove(i);
                entries.insert(i, (key, value));
                proof {
                    assert(entries@ =~= e0.update(i as int, entries@[i as int]));
                    let nk = entries@.map_values(|e: (String, V)| e.0@);
                    assert(nk =~= old_keys);
                }
                self.entries = entries;
                proof {
                    let j = old_keys.index_of(key@);
                    assert(old_keys[i as int] == key@);
                    assert(old_keys.contains(key@));
                    assert(j == i);
                    assert(self@ =~= old(self)@.insert(key@, value)) by {
                        assert forall|k: Seq<char>| #[trigger] self@.contains_key(k) implies self@[k]
                            == old(self)@.insert(key@, value)[k] by {
                            let a = self.keys().index_of(k);
                            if k != key@ {
                                assert(old_keys.contains(k));
                                let b = old_keys.index_of(k);
                                assert(old_keys[a] == k);
                                assert(old_keys[b] == k);
                                assert(a == b);
                            }
                        }
                    }
                }
                Some(old_value)
            },
            None => {
                entries.push((key, value));
                proof {
                    let nk = entries@.map_values(|e: (String, V)| e.0@);
                    assert(nk =~= old_keys.push(key@));
                    assert forall|x: int, y: int| 0 <= x < y < nk.len() implies nk[x] != nk[y] by {
                        if y == nk.len() - 1 {
                            assert(old_keys[x] == nk[x]);
                        } else {
                            assert(old_keys[x] == nk[x] && old_keys[y] == nk[y]);
                        }
                    }
                }
                self.entries = entries;
                proof {
                    let n = old_keys.len() as int;
                    assert(self@ =~= old(self)@.insert(key@, value)) by {
                        assert forall|k: Seq<char>| #[trigger] self@.contains_key(k) implies self@[k]
                            == old(self)@.insert(key@, value)[k] by {
                            let a = self.keys().index_of(k);
                            if k == key@ {
                                assert(self.keys()[n] == key@);
                                assert(a == n);
                            } else {
                                assert(old_keys.contains(k));
                                let b = old_keys.index_of(k);
                                assert(old_keys[b] == k);
                                assert(self.keys()[b] == k);
                                assert(a == b);
                            }
                        }
                        assert forall|k: Seq<char>| #[trigger] old(self)@.insert(key@, value).contains_key(k)
                            implies self@.contains_key(k) by {
                            if k == key@ {
                                assert(self.keys()[n] == key@);
                            } else {
                                let b = old_keys.index_of(k);
                                assert(self.keys()[b] == k);
                            }
                        }
                    }
                }
                None
            },
        }
    }

    /// Removes the entry with key `key` and returns its value; the other entries
    /// keep their order.
    pub fn remove(&mut self, key: &str) -> (r: Option<V>)
        ensures
            final(self)@ == old(self)@.remove(key@),
            r == (if old(self)@.contains_key(key@) {
                Some(old(self)@[key@])
            } else {
                None::<V>
            }),
            !old(self)@.contains_key(key@) ==> *final(self) == *old(self),
    {
        proof {
            use_type_invariant(&*self);
        }
        let ghost old_keys = self.keys();
        match self.position(key) {
            Some(i) => {
                let mut entries: Vec<(String, V)> = Vec::new();
                std::mem::swap(&mut entries, &mut self.entries);
                let ghost e0 = entries@;
                let (_k, old_value) = entries.remove(i);
                proof {
                    let nk = entries@.map_values(|e: (String, V)| e.0@);
                    assert(nk =~= old_keys.remove(i as int));
                    assert forall|x: int, y: int| 0 <= x < y < nk.len() implies nk[x] != nk[y] by {
                        let xo = if x < i { x } else { x + 1 };
                        let yo = if y < i { y } else { y + 1 };
                        assert(nk[x] == old_keys[xo]);
                        assert(nk[y] == old_keys[yo]);
                    }
                }
                self.entries = entries;
                proof {
                    assert(old_keys[i as int] == key@);
                    assert(old_keys.contains(key@));
                    let j = old_keys.index_of(key@);
                    assert(j == i);
                    assert(self@ =~= old(self)@.remove(key@)) by {
                        assert forall|k: Seq<char>| #[trigger] self@.contains_key(k) implies k != key@
                            && old(self)@.contains_key(k) && self@[k] == old(self)@[k] by {
                            let a = self.keys().index_of(k);
                            let ao = if a < i { a } else { a + 1 };
                            assert(old_keys[ao] == k);
                            let b = old_keys.index_of(k);
                            assert(old_keys[b] == k);
                            assert(b == ao);
                        }
                        assert forall|k: Seq<char>| #[trigger] old(self)@.contains_key(k) && k != key@
                            implies self@.contains_key(k) by {
                            let b = old_keys.index_of(k);
                            assert(b != i);
                            let a = if b < i { b } else { b - 1 };
                            assert(self.keys()[a] == k);
                        }
                    }
                }
                Some(old_value)
            },
            None => {
                assert(old(self)@.remove(key@) =~= old(self)@);
                None
            },
        }
    }
}

impl<V: Clone> Clone for StrMap<V> {
    /// A copy with the same keys in the same order, each value cloned.
    fn clone(&self) -> (r: Self)
        ensures
            r.keys() == self.keys(),
            forall|i: int| 0 <= i < self.len_spec() ==> cloned::<V>(self.value_at_spec(i), #[trigger] r.value_at_spec(i)),
    {
        proof {
            use_type_invariant(self);
        }
        let mut entries: Vec<(String, V)> = Vec::new();
        let mut i: usize = 0;
        while i < self.entries.len()
            invariant
                i <= self.entries@.len(),
                entries@.len() == i,
                self.keys().no_duplicates(),
                forall|j: int| 0 <= j < i ==> entries@[j].0@ == #[trigger] self.entries@[j].0@,
                forall|j: int| 0 <= j < i ==> cloned::<V>(self.entries@[j].1, #[trigger] entries@[j].1),
            decreases self.entries@.len() - i,
        {
            let k = self.entries[i].0.clone();
            let v = self.entries[i].1.clone();
            entries.push((k, v));
            i = i + 1;
        }
        proof {
            let nk = entries@.map_values(|e: (String, V)| e.0@);
            assert(nk =~= self.keys());
        }
        StrMap { entries }
    }
}

} // verus!
