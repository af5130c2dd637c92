//! A set of texts.

use crate::text::{contains_text, lists, text_equals, texts};
use vstd::prelude::*;

verus! {

/// A set of texts.
#[derive(Debug)]
pub struct TextSet {
    items: Vec<String>,
}

impl View for TextSet {
    type V = Set<Seq<char>>;

    closed spec fn view(&self) -> Set<Seq<char>> {
        texts(self.items@).to_set()
    }
}

impl TextSet {
    /// No text occurs twice.
    pub closed spec fn wf(&self) -> bool {
        texts(self.items@).no_duplicates()
    }

    proof fn lemma_member(&self, text: Seq<char>)
        ensures
            self@.contains(text) <==> lists(self.items@, text),
    {
        let all = texts(self.items@);
        if lists(self.items@, text) {
            let i = choose|i: int| 0 <= i < self.items@.len() && (#[trigger] self.items@[i])@ == text;
            assert(all[i] == text);
        }
        if all.contains(text) {
            let i = choose|i: int| 0 <= i < all.len() && all[i] == text;
            assert(self.items@[i]@ == text);
        }
    }

    /// A set of texts is finite.
    pub proof fn lemma_finite(&self)
        ensures
            self@.finite(),
    {
        vstd::seq_lib::seq_to_set_is_finite(texts(self.items@));
    }

    pub fn new() -> (result: TextSet)
        ensures
            result.wf(),
            result@ == Set::<Seq<char>>::empty(),
    {
        let result = TextSet { items: Vec::new() };
        assert(texts(result.items@).to_set() =~= Set::<Seq<char>>::empty());
        result
    }

    pub fn len(&self) -> (result: usize)
        requires
            self.wf(),
        ensures
            result == self@.len(),
            self@.finite(),
    {
        proof {
            texts(self.items@).unique_seq_to_set();
        }
        self.items.len()
    }

    pub fn contains(&self, text: &str) -> (result: bool)
        ensures
            result == self@.contains(text@),
    {
        proof {
            self.lemma_member(text@);
        }
        contains_text(&self.items, text)
    }

    /// A member of a set that is not empty.
    pub fn first(&self) -> (result: &String)
        requires
            self.wf(),
            self@ != Set::<Seq<char>>::empty(),
        ensures
            self@.contains(result@),
    {
        proof {
            if self.items@.len() == 0 {
                assert(self@ =~= Set::<Seq<char>>::empty());
            }
            assert(texts(self.items@)[0] == self.items@[0]@);
        }
        &self.items[0]
    }

    pub fn is_empty(&self) -> (result: bool)
        ensures
            result == (self@ == Set::<Seq<char>>::empty()),
    {
        proof {
            if self.items@.len() == 0 {
                assert(self@ =~= Set::<Seq<char>>::empty());
            } else {
                assert(texts(self.items@)[0] == self.items@[0]@);
                assert(self@.contains(self.items@[0]@));
            }
        }
        self.items.len() == 0
    }

    /// Puts `text` in; says whether it was new.
    pub fn insert(&mut self, text: &str) -> (result: bool)
        requires
            old(self).wf(),
        ensures
            final(self).wf(),
            final(self)@ == old(self)@.insert(text@),
            result == !old(self)@.contains(text@),
    {
        let ghost before = texts(self.items@);
        if self.contains(text) {
            assert(self@ =~= old(self)@.insert(text@));
            return false;
        }
        self.items.push(text.to_owned());
        proof {
            let after = texts(self.items@);
            assert(after =~= before.push(text@));
            assert forall|t: Seq<char>| after.to_set().contains(t) == before.to_set().insert(
                text@,
            ).contains(t) by {
                if after.contains(t) {
                    let i = choose|i: int| 0 <= i < after.len() && after[i] == t;
                    if i < before.len() {
                        assert(before[i] == t);
                    }
                }
                if before.contains(t) {
                    let i = choose|i: int| 0 <= i < before.len() && before[i] == t;
                    assert(after[i] == t);
                }
                assert(after[before.len() as int] == text@);
            }
            assert(self@ =~= old(self)@.insert(text@));
        }
        true
    }

    /// Takes `text` out; says whether it was there.
    pub fn remove(&mut self, text: &str) -> (result: bool)
        requires
            old(self).wf(),
        ensures
            final(self).wf(),
            final(self)@ == old(self)@.remove(text@),
            result == old(self)@.contains(text@),
    {
        let ghost before = texts(self.items@);
        let mut i: usize = 0;
        while i < self.items.len()
            invariant
                i <= self.items.len(),
                *self == *old(self),
                self.wf(),
                before == texts(self.items@),
                forall|j: int| 0 <= j < i ==> (#[trigger] self.items@[j])@ != text@,
            decreases self.items.len() - i,
        {
            if text_equals(self.items[i].as_str(), text) {
                let _ = self.items.remove(i);
                proof {
                    let at = i as int;
                    let after = texts(self.items@);
                    assert(before[at] == text@);
                    assert(after =~= before.remove(at));
                    assert forall|a: int, b: int|
                        0 <= a < after.len() && 0 <= b < after.len() && a != b implies after[a]
                        != after[b] by {
                        let x = if a < at { a } else { a + 1 };
                        let y = if b < at { b } else { b + 1 };
                        assert(after[a] == before[x] && after[b] == before[y]);
                    }
                    assert forall|t: Seq<char>| after.to_set().contains(t) == before.to_set().remove(
                        text@,
                    ).contains(t) by {
                        if after.contains(t) {
                            let a = choose|a: int| 0 <= a < after.len() && after[a] == t;
                            let x = if a < at { a } else { a + 1 };
                            assert(before[x] == t);
                        }
                        if before.contains(t) && t != text@ {
                            let x = choose|x: int| 0 <= x < before.len() && before[x] == t;
                            let a = if x < at { x } else { x - 1 };
                            assert(after[a] == t);
                        }
                    }
                    assert(self@ =~= old(self)@.remove(text@));
                }
                return true;
            }
            i = i + 1;
        }
        proof {
            self.lemma_member(text@);
            assert(self@ =~= old(self)@.remove(text@));
        }
        false
    }
}


/// The set of the strings in a list.
pub fn distinct_texts(list: &Vec<String>) -> (result: TextSet)
    ensures
        result.wf(),
        result@ == texts(list@).to_set(),
        forall|text: Seq<char>| #[trigger] result@.contains(text) <==> lists(list@, text),
{
    let ghost all = texts(list@);
    let mut result = TextSet::new();
    let mut i: usize = 0;
    assert(all.subrange(0, 0).to_set() =~= Set::<Seq<char>>::empty());
    while i < list.len()
        invariant
            i <= list.len(),
            all == texts(list@),
            result.wf(),
            result@ == all.subrange(0, i as int).to_set(),
        decreases list.len() - i,
    {
        let _ = result.insert(list[i].as_str());
        proof {
            let a = all.subrange(0, i as int);
            let b = all.subrange(0, i + 1);
            let text = list@[i as int]@;
            assert(b =~= a.push(text));
            assert forall|t: Seq<char>| b.to_set().contains(t) == a.to_set().insert(text).contains(
                t,
            ) by {
                if b.contains(t) {
                    let k = choose|k: int| 0 <= k < b.len() && b[k] == t;
                    if k < i {
                        assert(a[k] == t);
                    }
                }
                if a.contains(t) {
                    let k = choose|k: int| 0 <= k < a.len() && a[k] == t;
                    assert(b[k] == t);
                }
                assert(b[i as int] == text);
            }
            assert(result@ =~= b.to_set());
        }
        i = i + 1;
    }
    proof {
        assert(all.subrange(0, all.len() as int) =~= all);
        assert forall|text: Seq<char>| #[trigger] result@.contains(text) <==> lists(
            list@,
            text,
        ) by {
            if all.contains(text) {
                let k = choose|k: int| 0 <= k < all.len() && all[k] == text;
                assert(list@[k]@ == text);
            }
            if lists(list@, text) {
                let k = choose|k: int| 0 <= k < list@.len() && (#[trigger] list@[k])@ == text;
                assert(all[k] == text);
            }
        }
    }
    result
}

} // verus!
