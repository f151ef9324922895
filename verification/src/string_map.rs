//! A small map from text keys to values that remembers the order in which its
//! keys were first inserted. The connectors use it wherever they track files,
//! object keys or field names.

use crate::text::text_equal;
use vstd::prelude::*;

verus! {

/// A map keyed by text. No key occurs twice; keys are kept in insertion order.
#[derive(Debug)]
pub struct StringMap<V> {
    entries: Vec<(String, V)>,
}

impl<V> StringMap<V> {
    /// The keys, in the order in which they are stored.
    pub closed spec fn keys(&self) -> Seq<Seq<char>> {
        Seq::new(self.entries.len() as nat, |i: int| self.entries[i].0@)
    }

    /// The values, each at the position of its key.
    pub closed spec fn values(&self) -> Seq<V> {
        Seq::new(self.entries.len() as nat, |i: int| self.entries[i].1)
    }

    /// Every key occurs once.
    pub open spec fn wf(&self) -> bool {
        &&& self.keys().no_duplicates()
        &&& self.keys().len() == self.values().len()
    }

    /// The map as a mathematical map from key to value.
    pub open spec fn view(&self) -> Map<Seq<char>, V> {
        Map::new(
            |k: Seq<char>| self.keys().contains(k),
            |k: Seq<char>| self.values()[self.keys().index_of(k)],
        )
    }

    /// The entry stored at position `i` is the mapping of its key.
    pub proof fn lemma_entry(&self, i: int)
        requires
            self.wf(),
            0 <= i < self.keys().len(),
        ensures
            self@.contains_key(self.keys()[i]),
            self@[self.keys()[i]] == self.values()[i],
    {
        let k = self.keys()[i];
        assert(self.keys().contains(k));
        let j = self.keys().index_of(k);
        assert(0 <= j < self.keys().len() && self.keys()[j] == k);
    }

    /// A key of the map is stored at some position.
    pub proof fn lemma_key_position(&self, k: Seq<char>) -> (i: int)
        requires
            self.wf(),
            self@.contains_key(k),
        ensures
            0 <= i < self.keys().len(),
            self.keys()[i] == k,
            self.values()[i] == self@[k],
    {
        let i = self.keys().index_of(k);
        assert(self.keys().contains(k));
        i
    }

    /// The domain of a well-formed map is finite and as large as the key list.
    pub proof fn lemma_dom(&self)
        requires
            self.wf(),
        ensures
            self@.dom() == self.keys().to_set(),
            self@.dom().finite(),
            self@.dom().len() == self.keys().len(),
    {
        assert(self@.dom() =~= self.keys().to_set());
        self.keys().unique_seq_to_set();
        vstd::seq_lib::seq_to_set_is_finite(self.keys());
    }

    /// An empty map.
    pub fn new() -> (r: Self)
        ensures
            r.wf(),
            r.keys() == Seq::<Seq<char>>::empty(),
            r@ == Map::<Seq<char>, V>::empty(),
    {
        let r = StringMap { entries: Vec::new() };
        assert(r.keys() =~= Seq::<Seq<char>>::empty());
        assert(r@ =~= Map::<Seq<char>, V>::empty());
        r
    }

    /// Number of keys.
    pub fn len(&self) -> (n: usize)
        ensures
            n == self.keys().len(),
            n == self.values().len(),
    {
        self.entries.len()
    }

    /// Whether the map holds no key.
    pub fn is_empty(&self) -> (r: bool)
        ensures
            r == (self.keys().len() == 0),
    {
        self.entries.len() == 0
    }

    /// The key stored at position `i`.
    pub fn key_at(&self, i: usize) -> (k: &String)
        requires
            i < self.keys().len(),
        ensures
            k@ == self.keys()[i as int],
    {
        &self.entries[i].0
    }

    /// The value stored at position `i`.
    pub fn value_at(&self, i: usize) -> (v: &V)
        requires
            i < self.keys().len(),
        ensures
            *v == self.values()[i as int],
    {
        &self.entries[i].1
    }

    /// Where `key` is stored, if it is a key of the map.
    pub fn position(&self, key: &str) -> (r: Option<usize>)
        ensures
            match r {
                Some(i) => i < self.keys().len() && self.keys()[i as int] == key@,
                None => !self.keys().contains(key@),
            },
    {
        let mut i: usize = 0;
        while i < self.entries.len()
            invariant
                i <= self.entries.len(),
                forall|j: int| 0 <= j < i ==> self.keys()[j] != key@,
            decreases self.entries.len() - i,
        {
            if text_equal(self.entries[i].0.as_str(), key) {
                return Some(i);
            }
            i += 1;
        }
        None
    }

    /// Whether `key` is a key of the map.
    pub fn contains_key(&self, key: &str) -> (r: bool)
        ensures
            r == self@.contains_key(key@),
    {
        self.position(key).is_some()
    }

    /// The value stored under `key`.
    pub fn get(&self, key: &str) -> (r: Option<&V>)
        requires
            self.wf(),
        ensures
            match r {
                Some(v) => self@.contains_key(key@) && *v == self@[key@],
                None => !self@.contains_key(key@),
            },
    {
        match self.position(key) {
            Some(i) => {
                proof {
                    self.lemma_entry(i as int);
                }
                Some(&self.entries[i].1)
            },
            None => None,
        }
    }

    /// Stores `value` under `key` and hands back what was stored there before.
    /// A new key goes to the end of the key list; a known key keeps its place.
    pub fn insert(&mut self, key: String, value: V) -> (previous: Option<V>)
        requires
            old(self).wf(),
        ensures
            final(self).wf(),
            final(self)@ == old(self)@.insert(key@, value),
            previous == (if old(self)@.contains_key(key@) {
                Some(old(self)@[key@])
            } else {
                None
            }),
            old(self)@.contains_key(key@) ==> final(self).keys() == old(self).keys(),
            !old(self)@.contains_key(key@) ==> final(self).keys() == old(self).keys().push(key@),
    {
        let ghost k = key@;
        match self.position(key.as_str()) {
            Some(i) => {
                proof {
                    self.lemma_entry(i as int);
                }
                let (_, previous) = self.entries.remove(i);
                self.entries.insert(i, (key, value));
                proof {
                    assert(self.keys() =~= old(self).keys());
                    assert forall|q: Seq<char>| self@.contains_key(q) implies self@[q] == old(
                        self,
                    )@.insert(k, value)[q] by {
                        let j = self.keys().index_of(q);
                        assert(self.keys().contains(q));
                        if j != i {
                            assert(self.values()[j] == old(self).values()[j]);
                        }
                    }
                    assert(self@ =~= old(self)@.insert(k, value));
                }
                Some(previous)
            },
            None => {
                self.entries.push((key, value));
                proof {
                    assert(self.keys() =~= old(self).keys().push(k));
                    assert forall|q: Seq<char>| self@.contains_key(q) == old(self)@.insert(
                        k,
                        value,
                    ).contains_key(q) by {
                        if old(self).keys().contains(q) {
                            let j = old(self).keys().index_of(q);
                            assert(self.keys()[j] == q);
                        }
                        if q == k {
                            assert(self.keys()[self.keys().len() - 1] == k);
                        }
                        if self.keys().contains(q) && q != k {
                            let j = self.keys().index_of(q);
                            assert(old(self).keys()[j] == q);
                        }
                    }
                    assert forall|q: Seq<char>| self@.contains_key(q) implies self@[q] == old(
                        self,
                    )@.insert(k, value)[q] by {
                        let j = self.keys().index_of(q);
                        assert(self.keys().contains(q));
                        if q != k {
                            assert(old(self).keys()[j] == q);
                            let j0 = old(self).keys().index_of(q);
                            assert(old(self).keys().contains(q));
                            assert(self.keys()[j0] == q);
                            assert(self.values()[j] == old(self).values()[j]);
                        } else {
                            assert(self.keys()[self.keys().len() - 1] == k);
                        }
                    }
                    assert(self@ =~= old(self)@.insert(k, value));
                }
                None
            },
        }
    }

    /// Takes `key` out of the map and hands back what was stored under it.
    /// The other keys keep their order.
    pub fn remove(&mut self, key: &str) -> (previous: Option<V>)
        requires
            old(self).wf(),
        ensures
            final(self).wf(),
            final(self)@ == old(self)@.remove(key@),
            previous == (if old(self)@.contains_key(key@) {
                Some(old(self)@[key@])
            } else {
                None
            }),
            !old(self)@.contains_key(key@) ==> final(self).keys() == old(self).keys(),
            old(self)@.contains_key(key@) ==> final(self).keys() == old(self).keys().remove(
                old(self).keys().index_of(key@),
            ),
    {
        match self.position(key) {
            Some(i) => {
                proof {
                    self.lemma_entry(i as int);
                    assert(old(self).keys().contains(key@));
                }
                let (_, previous) = self.entries.remove(i);
                proof {
                    assert(self.keys() =~= old(self).keys().remove(i as int));
                    assert forall|q: Seq<char>| self@.contains_key(q) == old(self)@.remove(
                        key@,
                    ).contains_key(q) by {
                        if old(self).keys().contains(q) && q != key@ {
                            let j = old(self).keys().index_of(q);
                            if j < i {
                                assert(self.keys()[j] == q);
                            } else {
                                assert(self.keys()[j - 1] == q);
                            }
                        }
                        if self.keys().contains(q) {
                            let j = self.keys().index_of(q);
                            if j < i {
                                assert(old(self).keys()[j] == q);
                            } else {
                                assert(old(self).keys()[j + 1] == q);
                            }
                        }
                    }
                    assert forall|q: Seq<char>| self@.contains_key(q) implies self@[q] == old(
                        self,
                    )@.remove(key@)[q] by {
                        let j = self.keys().index_of(q);
                        assert(self.keys().contains(q));
                        let j0 = old(self).keys().index_of(q);
                        if j < i {
                            assert(old(self).keys()[j] == q);
                            assert(self.values()[j] == old(self).values()[j]);
                        } else {
                            assert(old(self).keys()[j + 1] == q);
                            assert(self.values()[j] == old(self).values()[j + 1]);
                        }
                    }
                    assert(self@ =~= old(self)@.remove(key@));
                }
                Some(previous)
            },
            None => {
                assert(self@ =~= old(self)@.remove(key@));
                None
            },
        }
    }

    /// Forgets every key.
    pub fn clear(&mut self)
        ensures
            final(self).wf(),
            final(self).keys() == Seq::<Seq<char>>::empty(),
            final(self)@ == Map::<Seq<char>, V>::empty(),
    {
        self.entries.clear();
        assert(self.keys() =~= Seq::<Seq<char>>::empty());
        assert(self@ =~= Map::<Seq<char>, V>::empty());
    }
}

} // verus!
