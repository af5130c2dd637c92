//! A map from texts to values that keeps its keys in the order in which they came.

use crate::text::text_equals;
use vstd::prelude::*;

verus! {

/// A map from texts to values.
#[derive(Debug)]
pub struct TextMap<V> {
    entries: Vec<(String, V)>,
}

impl<V> View for TextMap<V> {
    type V = Map<Seq<char>, V>;

    closed spec fn view(&self) -> Map<Seq<char>, V> {
        Map::new(
            |key: Seq<char>| exists|i: int| self.holds_at(i, key),
            |key: Seq<char>| self.entries@[choose|i: int| self.holds_at(i, key)].1,
        )
    }
}

impl<V> TextMap<V> {
    closed spec fn holds_at(&self, i: int, key: Seq<char>) -> bool {
        0 <= i < self.entries@.len() && self.entries@[i].0@ == key
    }

    /// No key occurs twice.
    pub closed spec fn wf(&self) -> bool {
        forall|i: int, j: int|
            0 <= i < j < self.entries@.len() ==> (#[trigger] self.entries@[i]).0@ != (
            #[trigger] self.entries@[j]).0@
    }

    /// The keys, in the order in which they came.
    pub closed spec fn keys(&self) -> Seq<Seq<char>> {
        Seq::new(self.entries@.len(), |i: int| self.entries@[i].0@)
    }

    /// Every key stands in the order exactly once.
    pub proof fn lemma_keys(&self)
        requires
            self.wf(),
        ensures
            self.keys().no_duplicates(),
            forall|key: Seq<char>| #[trigger] self@.contains_key(key) <==> self.keys().contains(key),
            self.keys().to_set() == self@.dom(),
    {
        assert forall|key: Seq<char>| #[trigger] self@.contains_key(key) <==> self.keys().contains(
            key,
        ) by {
            if self@.contains_key(key) {
                let i = choose|i: int| self.holds_at(i, key);
                assert(self.keys()[i] == key);
            }
            if self.keys().contains(key) {
                let i = choose|i: int| 0 <= i < self.keys().len() && self.keys()[i] == key;
                assert(self.holds_at(i, key));
            }
        }
        assert(self.keys().to_set() =~= self@.dom());
    }

    proof fn lemma_at(&self, i: int)
        requires
            self.wf(),
            0 <= i < self.entries@.len(),
        ensures
            self@.contains_key(self.entries@[i].0@),
            self@[self.entries@[i].0@] == self.entries@[i].1,
    {
        let key = self.entries@[i].0@;
        assert(self.holds_at(i, key));
        let j = choose|j: int| self.holds_at(j, key);
        assert(self.holds_at(j, key));
        assert(i == j);
    }

    pub fn new() -> (result: TextMap<V>)
        ensures
            result.wf(),
            result@ == Map::<Seq<char>, V>::empty(),
            result.keys() == Seq::<Seq<char>>::empty(),
    {
        let result = TextMap { entries: Vec::new() };
        assert(result@ =~= Map::<Seq<char>, V>::empty());
        assert(result.keys() =~= Seq::<Seq<char>>::empty());
        result
    }

    pub fn len(&self) -> (result: usize)
        ensures
            result == self.keys().len(),
    {
        self.entries.len()
    }

    fn position(&self, key: &str) -> (result: Option<usize>)
        requires
            self.wf(),
        ensures
            match result {
                Some(i) => i < self.entries@.len() && self.entries@[i as int].0@ == key@
                    && self@.contains_key(key@) && self@[key@] == self.entries@[i as int].1,
                None => !self@.contains_key(key@) && forall|i: int|
                    0 <= i < self.entries@.len() ==> (#[trigger] self.entries@[i]).0@ != key@,
            },
    {
        let mut i: usize = 0;
        while i < self.entries.len()
            invariant
                i <= self.entries.len(),
                self.wf(),
                forall|j: int| 0 <= j < i ==> (#[trigger] self.entries@[j]).0@ != key@,
            decreases self.entries.len() - i,
        {
            if text_equals(self.entries[i].0.as_str(), key) {
                proof {
                    self.lemma_at(i as int);
                }
                return Some(i);
            }
            i = i + 1;
        }
        None
    }

    pub fn contains_key(&self, key: &str) -> (result: bool)
        requires
            self.wf(),
        ensures
            result == self@.contains_key(key@),
    {
        self.position(key).is_some()
    }

    pub fn get(&self, key: &str) -> (result: Option<&V>)
        requires
            self.wf(),
        ensures
            match result {
                Some(value) => self@.contains_key(key@) && self@[key@] == *value,
                None => !self@.contains_key(key@),
            },
    {
        match self.position(key) {
            Some(i) => Some(&self.entries[i].1),
            None => None,
        }
    }

    /// The key and the value at a position in the order of the keys.
    pub fn entry_at(&self, i: usize) -> (result: (&String, &V))
        requires
            self.wf(),
            i < self.keys().len(),
        ensures
            result.0@ == self.keys()[i as int],
            self@.contains_key(result.0@),
            self@[result.0@] == *result.1,
    {
        proof {
            self.lemma_at(i as int);
        }
        (&self.entries[i].0, &self.entries[i].1)
    }

    /// Puts `value` under `key`; a key that is there keeps its place in the order.
    pub fn insert(&mut self, key: &str, value: V)
        requires
            old(self).wf(),
        ensures
            final(self).wf(),
            final(self)@ == old(self)@.insert(key@, value),
            final(self).keys() == if old(self)@.contains_key(key@) {
                old(self).keys()
            } else {
                old(self).keys().push(key@)
            },
    {
        let ghost before = *self;
        match self.position(key) {
            Some(i) => {
                self.entries.set(i, (key.to_owned(), value));
                assert(self.keys() =~= before.keys());
                assert(self.wf()) by {
                    assert forall|a: int, b: int| 0 <= a < b < self.entries@.len() implies (
                    #[trigger] self.entries@[a]).0@ != (#[trigger] self.entries@[b]).0@ by {
                        assert(self.keys()[a] == before.keys()[a]);
                        assert(self.keys()[b] == before.keys()[b]);
                    }
                }
                proof {
                    self.lemma_at(i as int);
                    assert forall|k: Seq<char>| self@.contains_key(k) == before@.insert(
                        key@,
                        value,
                    ).contains_key(k) by {
                        if self@.contains_key(k) {
                            let j = choose|j: int| self.holds_at(j, k);
                            assert(self.keys()[j] == before.keys()[j]);
                            before.lemma_at(j);
                        }
                        if before@.contains_key(k) {
                            let j = choose|j: int| before.holds_at(j, k);
                            assert(self.keys()[j] == before.keys()[j]);
                            self.lemma_at(j);
                        }
                    }
                    assert forall|k: Seq<char>| self@.contains_key(k) implies self@[k]
                        == before@.insert(key@, value)[k] by {
                        let j = choose|j: int| self.holds_at(j, k);
                        assert(self.keys()[j] == before.keys()[j]);
                        self.lemma_at(j);
                        before.lemma_at(j);
                    }
                    assert(self@ =~= before@.insert(key@, value));
                }
            },
            None => {
                self.entries.push((key.to_owned(), value));
                assert(self.keys() =~= before.keys().push(key@));
                assert(self.wf());
                proof {
                    let n = before.entries@.len() as int;
                    self.lemma_at(n);
                    assert forall|k: Seq<char>| self@.contains_key(k) == before@.insert(
                        key@,
                        value,
                    ).contains_key(k) by {
                        if self@.contains_key(k) {
                            let j = choose|j: int| self.holds_at(j, k);
                            if j < n {
                                before.lemma_at(j);
                            }
                        }
                        if before@.contains_key(k) {
                            let j = choose|j: int| before.holds_at(j, k);
                            self.lemma_at(j);
                        }
                    }
                    assert forall|k: Seq<char>| self@.contains_key(k) implies self@[k]
                        == before@.insert(key@, value)[k] by {
                        let j = choose|j: int| self.holds_at(j, k);
                        self.lemma_at(j);
                        if j < n {
                            before.lemma_at(j);
                        }
                    }
                    assert(self@ =~= before@.insert(key@, value));
                }
            },
        }
    }

    /// Takes the entry under `key` out; the other keys keep their order.
    pub fn remove(&mut self, key: &str) -> (result: Option<V>)
        requires
            old(self).wf(),
        ensures
            final(self).wf(),
            final(self)@ == old(self)@.remove(key@),
            match result {
                Some(value) => old(self)@.contains_key(key@) && old(self)@[key@] == value,
                None => !old(self)@.contains_key(key@),
            },
    {
        let ghost before = *self;
        match self.position(key) {
            Some(i) => {
                let taken = self.entries.remove(i);
                proof {
                    let at = i as int;
                    assert forall|a: int| 0 <= a < self.entries@.len() implies #[trigger] self.entries@[a]
                        == before.entries@[if a < at { a } else { a + 1 }] by {
                    }
                    assert(self.wf()) by {
                        assert forall|a: int, b: int| 0 <= a < b < self.entries@.len() implies (
                        #[trigger] self.entries@[a]).0@ != (#[trigger] self.entries@[b]).0@ by {
                            let x = if a < at { a } else { a + 1 };
                            let y = if b < at { b } else { b + 1 };
                            assert(before.entries@[x].0@ != before.entries@[y].0@);
                        }
                    }
                    assert forall|k: Seq<char>| self@.contains_key(k) == before@.remove(
                        key@,
                    ).contains_key(k) by {
                        if self@.contains_key(k) {
                            let j = choose|j: int| self.holds_at(j, k);
                            let x = if j < at { j } else { j + 1 };
                            assert(self.entries@[j] == before.entries@[x]);
                            before.lemma_at(x);
                            assert(before.entries@[x].0@ != before.entries@[at].0@);
                        }
                        if before@.contains_key(k) && k != key@ {
                            let j = choose|j: int| before.holds_at(j, k);
                            let x = if j < at { j } else { j - 1 };
                            assert(self.entries@[x] == before.entries@[j]);
                            self.lemma_at(x);
                        }
                    }
                    assert forall|k: Seq<char>| self@.contains_key(k) implies self@[k]
                        == before@.remove(key@)[k] by {
                        let j = choose|j: int| self.holds_at(j, k);
                        let x = if j < at { j } else { j + 1 };
                        assert(self.entries@[j] == before.entries@[x]);
                        self.lemma_at(j);
                        before.lemma_at(x);
                    }
                    assert(self@ =~= before@.remove(key@));
                }
                Some(taken.1)
            },
            None => {
                assert(self@ =~= before@.remove(key@));
                None
            },
        }
    }
}

} // verus!
