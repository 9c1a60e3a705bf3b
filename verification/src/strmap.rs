//! A small map from strings to values, kept in insertion order.
//!
//! The stores of this crate are keyed by hexadecimal identifiers and hold a
//! few thousand entries at most, so a vector of pairs in which no key occurs
//! twice is enough. Its view is a mathematical map; `order` exposes the
//! sequence of keys for the operations that scan.

use vstd::prelude::*;
use crate::seqs::{lemma_first_index, lemma_remove_value};

verus! {

/// A map from strings to values of type `V`.
pub struct StrMap<V> {
    entries: Vec<(String, V)>,
}

impl<V> StrMap<V> {
    /// The keys in the order in which they were first inserted.
    pub closed spec fn order(&self) -> Seq<Seq<char>> {
        Seq::new(self.entries@.len(), |i: int| self.entries@[i].0@)
    }

    /// The values, in the order of their keys.
    pub closed spec fn values(&self) -> Seq<V> {
        Seq::new(self.entries@.len(), |i: int| self.entries@[i].1)
    }

    /// No key occurs twice.
    pub closed spec fn wf(&self) -> bool {
        self.order().no_duplicates()
    }

    /// The map from each key to its value.
    pub closed spec fn view(&self) -> Map<Seq<char>, V> {
        Map::new(
            |k: Seq<char>| self.order().contains(k),
            |k: Seq<char>| self.values()[self.order().index_of(k)],
        )
    }

    /// The keys of the view are the keys of `order`, and the value of the
    /// key at position `i` is the value at position `i`.
    pub proof fn lemma_order(&self)
        requires
            self.wf(),
        ensures
            self.order().no_duplicates(),
            self.order().len() == self.values().len(),
            self@.dom().finite(),
            self@.dom() == self.order().to_set(),
            forall|k: Seq<char>| #[trigger] self@.dom().contains(k) <==> self.order().contains(k),
            forall|i: int|
                0 <= i < self.order().len() ==> self@.dom().contains(#[trigger] self.order()[i])
                    && self@[self.order()[i]] == self.values()[i],
    {
        let keys = self.order();
        assert forall|i: int| 0 <= i < keys.len() implies self@.dom().contains(
            #[trigger] keys[i],
        ) && self@[keys[i]] == self.values()[i] by {
            assert(keys.contains(keys[i]));
            let j = keys.index_of(keys[i]);
            assert(0 <= j < keys.len() && keys[j] == keys[i]);
        }
        assert(self@.dom() =~= keys.to_set());
        vstd::seq_lib::seq_to_set_is_finite(keys);
    }

    /// The empty map.
    pub fn new() -> (m: Self)
        ensures
            m.wf(),
            m@ == Map::<Seq<char>, V>::empty(),
            m.order() == Seq::<Seq<char>>::empty(),
    {
        let m = StrMap { entries: Vec::new() };
        assert(m.order() =~= Seq::<Seq<char>>::empty());
        assert(m@ =~= Map::<Seq<char>, V>::empty());
        m
    }

    /// How many keys are bound.
    pub fn len(&self) -> (n: usize)
        ensures
            n == self.order().len(),
    {
        self.entries.len()
    }

    /// The key at position `i` of `order`.
    pub fn key_at(&self, i: usize) -> (k: &String)
        requires
            i < self.order().len(),
        ensures
            k@ == self.order()[i as int],
    {
        &self.entries[i].0
    }

    /// The value at position `i` of `order`.
    pub fn value_at(&self, i: usize) -> (v: &V)
        requires
            i < self.order().len(),
        ensures
            *v == self.values()[i as int],
    {
        &self.entries[i].1
    }

    /// The position of `key` in `order`, if it is a key.
    pub fn position(&self, key: &str) -> (r: Option<usize>)
        requires
            self.wf(),
        ensures
            match r {
                Some(i) => i < self.order().len() && self.order()[i as int] == key@
                    && self@.dom().contains(key@) && self@[key@] == self.values()[i as int],
                None => !self@.dom().contains(key@) && !self.order().contains(key@),
            },
    {
        let wanted = key.to_string();
        let mut i: usize = 0;
        while i < self.entries.len()
            invariant
                self.wf(),
                i <= self.entries@.len(),
                wanted@ == key@,
                forall|j: int| 0 <= j < i ==> self.order()[j] != key@,
            decreases self.entries@.len() - i,
        {
            if self.entries[i].0 == wanted {
                proof {
                    assert(self.order()[i as int] == self.entries@[i as int].0@);
                    self.lemma_order();
                }
                return Some(i);
            }
            assert(self.order()[i as int] == self.entries@[i as int].0@);
            i += 1;
        }
        proof {
            self.lemma_order();
        }
        None
    }

    /// Whether `key` is bound.
    pub fn contains_key(&self, key: &str) -> (b: bool)
        requires
            self.wf(),
        ensures
            b == self@.dom().contains(key@),
    {
        self.position(key).is_some()
    }

    /// The value that `key` is bound to, if it is bound.
    pub fn get(&self, key: &str) -> (r: Option<&V>)
        requires
            self.wf(),
        ensures
            match r {
                Some(v) => self@.dom().contains(key@) && *v == self@[key@],
                None => !self@.dom().contains(key@),
            },
    {
        match self.position(key) {
            Some(i) => Some(&self.entries[i].1),
            None => None,
        }
    }

    /// Binds `key` to `value`. A key that is already bound keeps its place
    /// in `order`; a new key goes to the end.
    pub fn insert(&mut self, key: String, value: V)
        requires
            old(self).wf(),
        ensures
            final(self).wf(),
            final(self)@ == old(self)@.insert(key@, value),
            final(self).order() == if old(self)@.dom().contains(key@) {
                old(self).order()
            } else {
                old(self).order().push(key@)
            },
    {
        let ghost before = *self;
        proof {
            before.lemma_order();
        }
        match self.position(key.as_str()) {
            Some(i) => {
                self.entries.set(i, (key, value));
                assert(self.order() =~= before.order());
                assert(self.values() =~= before.values().update(i as int, value));
                proof {
                    self.lemma_order();
                    assert forall|k: Seq<char>| #[trigger]
                        before@.insert(key@, value).dom().contains(k) implies self@[k]
                        == before@.insert(key@, value)[k] by {
                        let j = self.order().index_of(k);
                        assert(self.order().contains(k));
                    }
                }
                assert(self@ =~= before@.insert(key@, value));
            },
            None => {
                self.entries.push((key, value));
                assert(self.order() =~= before.order().push(key@));
                assert(self.values() =~= before.values().push(value));
                proof {
                    assert(self.order().no_duplicates());
                    self.lemma_order();
                    assert forall|k: Seq<char>| #[trigger]
                        before@.insert(key@, value).dom().contains(k) implies self@.dom().contains(
                        k,
                    ) && self@[k] == before@.insert(key@, value)[k] by {
                        if k == key@ {
                            assert(self.order()[before.order().len() as int] == k);
                        } else {
                            assert(before.order().contains(k));
                            let j = before.order().index_of(k);
                            assert(self.order()[j] == k);
                        }
                    }
                    assert forall|k: Seq<char>| #[trigger] self@.dom().contains(k) implies before@.insert(
                        key@,
                        value,
                    ).dom().contains(k) by {
                        let j = self.order().index_of(k);
                        if j < before.order().len() {
                            assert(before.order()[j] == k);
                        }
                    }
                }
                assert(self@ =~= before@.insert(key@, value));
            },
        }
    }

    /// Unbinds `key` and hands back its value; the other keys keep their
    /// relative order.
    pub fn remove(&mut self, key: &str) -> (r: Option<V>)
        requires
            old(self).wf(),
        ensures
            final(self).wf(),
            final(self)@ == old(self)@.remove(key@),
            r == if old(self)@.dom().contains(key@) {
                Some(old(self)@[key@])
            } else {
                None
            },
            final(self).order() == old(self).order().remove_value(key@),
    {
        let ghost before = *self;
        proof {
            before.lemma_order();
        }
        match self.position(key) {
            Some(i) => {
                let pair = self.entries.remove(i);
                assert(self.order() =~= before.order().remove(i as int));
                assert(self.values() =~= before.values().remove(i as int));
                proof {
                    lemma_first_index(before.order(), key@, i as int);
                    self.lemma_order();
                    assert forall|k: Seq<char>| #[trigger]
                        before@.remove(key@).dom().contains(k) implies self@.dom().contains(k)
                        && self@[k] == before@.remove(key@)[k] by {
                        assert(before.order().contains(k));
                        let j = before.order().index_of(k);
                        if j < i {
                            assert(self.order()[j] == k);
                        } else {
                            assert(self.order()[j - 1] == k);
                        }
                    }
                }
                assert(self@ =~= before@.remove(key@));
                Some(pair.1)
            },
            None => {
                proof {
                    lemma_remove_value(before.order(), key@);
                }
                assert(self@ =~= before@.remove(key@));
                None
            },
        }
    }
}

} // verus!
