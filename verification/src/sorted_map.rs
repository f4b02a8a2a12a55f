//! A map whose keys are texts, kept by increasing order of its keys.

use crate::entries::{
    as_map, holds, lemma_entry, lemma_insert, lemma_remove, no_name_twice, position_of,
};
use crate::order::{is_name_order, name_order, name_order_is_unique, texts};
use crate::text::{text_equals, text_lt, text_order_is_total, text_precedes};
use vstd::prelude::*;

verus! {

/// A map from texts to values, whose entries are kept by increasing order of the texts.
#[derive(Debug)]
pub struct SortedMap<V> {
    entries: Vec<(String, V)>,
}

impl<V> View for SortedMap<V> {
    type V = Map<Seq<char>, V>;

    closed spec fn view(&self) -> Map<Seq<char>, V> {
        as_map(self.entries@)
    }
}

spec fn sorted<V>(entries: Seq<(String, V)>) -> bool {
    forall|i: int, j: int|
        0 <= i < j < entries.len() ==> text_lt(
            (#[trigger] entries[i]).0@,
            (#[trigger] entries[j]).0@,
        )
}

proof fn lemma_sorted_unique<V>(entries: Seq<(String, V)>)
    requires
        sorted(entries),
    ensures
        no_name_twice(entries),
{
    assert forall|i: int, j: int| 0 <= i < j < entries.len() implies (#[trigger] entries[i]).0@ != (
    #[trigger] entries[j]).0@ by {
        text_order_is_total(entries[i].0@, entries[j].0@, entries[i].0@);
    }
}

impl<V: Clone> Clone for SortedMap<V> {
    fn clone(&self) -> (r: Self)
        ensures
            r@.dom() == self@.dom(),
            forall|key: Seq<char>| #[trigger]
                self@.contains_key(key) ==> cloned::<V>(self@[key], r@[key]),
    {
        proof {
            use_type_invariant(self);
        }
        let mut entries: Vec<(String, V)> = Vec::new();
        let mut i: usize = 0;
        while i < self.entries.len()
            invariant
                i <= self.entries@.len(),
                entries@.len() == i,
                forall|j: int|
                    0 <= j < i ==> (#[trigger] entries@[j]).0@ == self.entries@[j].0@ && cloned::<V>(
                        self.entries@[j].1,
                        entries@[j].1,
                    ),
            decreases self.entries@.len() - i,
        {
            let key = self.entries[i].0.clone();
            let value = self.entries[i].1.clone();
            entries.push((key, value));
            i += 1;
        }
        proof {
            assert forall|a: int, b: int| 0 <= a < b < entries@.len() implies text_lt(
                (#[trigger] entries@[a]).0@,
                (#[trigger] entries@[b]).0@,
            ) by {
                assert(text_lt(self.entries@[a].0@, self.entries@[b].0@));
            }
            lemma_sorted_unique(entries@);
            assert forall|n: Seq<char>| as_map(entries@).contains_key(n) <==> self@.contains_key(
                n,
            ) by {
                if holds(entries@, n) {
                    assert(self.entries@[position_of(entries@, n)].0@ == n);
                }
                if holds(self.entries@, n) {
                    assert(entries@[position_of(self.entries@, n)].0@ == n);
                }
            }
            assert forall|n: Seq<char>| #[trigger] self@.contains_key(n) implies cloned::<V>(
                self@[n],
                as_map(entries@)[n],
            ) by {
                let j = position_of(self.entries@, n);
                assert(entries@[j].0@ == n);
                lemma_entry(entries@, j);
            }
            assert(as_map(entries@).dom() =~= self@.dom());
        }
        SortedMap { entries }
    }
}

impl<V> SortedMap<V> {
    #[verifier::type_invariant]
    spec fn in_order(self) -> bool {
        sorted(self.entries@)
    }

    /// A map without entries.
    pub fn new() -> (r: Self)
        ensures
            r@ == Map::<Seq<char>, V>::empty(),
    {
        let r = SortedMap { entries: Vec::new() };
        assert(r@ =~= Map::<Seq<char>, V>::empty());
        r
    }

    /// Where the entry of `key` stands, or where it would.
    fn place_of(&self, key: &str) -> (r: usize)
        ensures
            r <= self.entries@.len(),
            forall|j: int| 0 <= j < r ==> text_lt((#[trigger] self.entries@[j]).0@, key@),
            forall|j: int| r <= j < self.entries@.len() ==> !text_lt((#[trigger] self.entries@[j]).0@, key@),
    {
        proof {
            use_type_invariant(self);
        }
        let mut i: usize = 0;
        while i < self.entries.len()
            invariant
                i <= self.entries@.len(),
                sorted(self.entries@),
                forall|j: int| 0 <= j < i ==> text_lt((#[trigger] self.entries@[j]).0@, key@),
            decreases self.entries@.len() - i,
        {
            if !text_precedes(self.entries[i].0.as_str(), key) {
                assert forall|j: int| i <= j < self.entries@.len() implies !text_lt(
                    (#[trigger] self.entries@[j]).0@,
                    key@,
                ) by {
                    text_order_is_total(self.entries@[i as int].0@, self.entries@[j].0@, key@);
                }
                return i;
            }
            i += 1;
        }
        i
    }

    fn find(&self, key: &str) -> (r: Option<usize>)
        ensures
            match r {
                Some(i) => i < self.entries@.len() && self.entries@[i as int].0@ == key@,
                None => !holds(self.entries@, key@),
            },
    {
        proof {
            use_type_invariant(self);
        }
        let i = self.place_of(key);
        if i < self.entries.len() && text_equals(self.entries[i].0.as_str(), key) {
            Some(i)
        } else {
            proof {
                if holds(self.entries@, key@) {
                    let j = position_of(self.entries@, key@);
                    text_order_is_total(key@, key@, key@);
                    assert(i < j);
                    let first = self.entries@[i as int].0@;
                    assert(text_lt(first, self.entries@[j].0@));
                }
            }
            None
        }
    }

    /// The value at `key`, if there is one.
    pub fn get(&self, key: &str) -> (r: Option<&V>)
        ensures
            match r {
                Some(value) => self@.contains_key(key@) && *value == self@[key@],
                None => !self@.contains_key(key@),
            },
    {
        proof {
            use_type_invariant(self);
            lemma_sorted_unique(self.entries@);
        }
        match self.find(key) {
            Some(i) => {
                proof {
                    lemma_entry(self.entries@, i as int);
                }
                Some(&self.entries[i].1)
            },
            None => None,
        }
    }

    /// Takes the value at `key` out of the map.
    pub fn remove(&mut self, key: &str) -> (r: Option<V>)
        ensures
            match r {
                Some(value) => old(self)@.contains_key(key@) && value == old(self)@[key@],
                None => !old(self)@.contains_key(key@),
            },
            final(self)@ == old(self)@.remove(key@),
    {
        proof {
            use_type_invariant(&*self);
            lemma_sorted_unique(self.entries@);
        }
        match self.find(key) {
            Some(i) => {
                proof {
                    lemma_remove(self.entries@, i as int);
                    lemma_entry(self.entries@, i as int);
                }
                let mut entries: Vec<(String, V)> = Vec::new();
                std::mem::swap(&mut entries, &mut self.entries);
                let (_, value) = entries.remove(i);
                self.entries = entries;
                Some(value)
            },
            None => {
                assert(self@ =~= self@.remove(key@));
                None
            },
        }
    }

    /// Puts `value` at `key`, in place of what was there.
    pub fn insert(&mut self, key: String, value: V)
        ensures
            final(self)@ == old(self)@.insert(key@, value),
    {
        let _ = self.remove(key.as_str());
        let i = self.place_of(key.as_str());
        proof {
            use_type_invariant(&*self);
            let before = self.entries@;
            lemma_sorted_unique(before);
            assert(!as_map(before).contains_key(key@));
            lemma_insert(before, i as int, (key, value));
            assert(self@.insert(key@, value) =~= old(self)@.insert(key@, value));
            let after = before.insert(i as int, (key, value));
            assert forall|a: int, b: int| 0 <= a < b < after.len() implies text_lt(
                (#[trigger] after[a]).0@,
                (#[trigger] after[b]).0@,
            ) by {
                if b == i {
                    assert(after[a] == before[a]);
                } else if a == i {
                    assert(after[b] == before[b - 1]);
                    assert(!text_lt(before[b - 1].0@, key@));
                    assert(before[b - 1].0@ != key@);
                    text_order_is_total(key@, before[b - 1].0@, key@);
                } else {
                    assert(after[a] == before[if a < i { a } else { a - 1 }]);
                    assert(after[b] == before[if b < i { b } else { b - 1 }]);
                }
            }
        }
        let mut entries: Vec<(String, V)> = Vec::new();
        std::mem::swap(&mut entries, &mut self.entries);
        entries.insert(i, (key, value));
        self.entries = entries;
    }

    /// Whether the map has no entry.
    pub fn is_empty(&self) -> (r: bool)
        ensures
            r == (self@ == Map::<Seq<char>, V>::empty()),
    {
        proof {
            if self.entries@.len() > 0 {
                assert(holds(self.entries@, self.entries@[0].0@));
                assert(self@.contains_key(self.entries@[0].0@));
            } else {
                assert(self@ =~= Map::<Seq<char>, V>::empty());
            }
        }
        self.entries.len() == 0
    }

    /// The keys of the map, by increasing order.
    pub fn keys(&self) -> (r: Vec<String>)
        ensures
            is_name_order(texts(r@), self@.dom()),
            texts(r@) == name_order(self@.dom()),
    {
        proof {
            use_type_invariant(self);
        }
        let mut out: Vec<String> = Vec::new();
        let mut i: usize = 0;
        while i < self.entries.len()
            invariant
                i <= self.entries@.len(),
                out@.len() == i,
                forall|j: int| 0 <= j < i ==> #[trigger] out@[j]@ == self.entries@[j].0@,
            decreases self.entries@.len() - i,
        {
            out.push(self.entries[i].0.clone());
            i += 1;
        }
        proof {
            let listed = texts(out@);
            assert forall|a: int, b: int| 0 <= a < b < listed.len() implies text_lt(
                listed[a],
                listed[b],
            ) by {
                assert(text_lt(self.entries@[a].0@, self.entries@[b].0@));
            }
            assert forall|n: Seq<char>| listed.contains(n) <==> self@.dom().contains(n) by {
                if listed.contains(n) {
                    let j = listed.index_of(n);
                    assert(self.entries@[j].0@ == n);
                }
                if self@.dom().contains(n) {
                    let j = position_of(self.entries@, n);
                    assert(listed[j] == n);
                }
            }
            assert(listed.to_set() =~= self@.dom());
            assert(is_name_order(listed, self@.dom()));
            name_order_is_unique(listed, name_order(self@.dom()), self@.dom());
        }
        out
    }
}

} // verus!
