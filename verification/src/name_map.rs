//! A map whose keys are names. It promises nothing about the order of its entries.

use crate::entries::{
    as_map, holds, lemma_entry, lemma_insert, lemma_remove, no_name_twice, position_of,
};
use crate::order::{
    is_name_order, lemma_sorted_listing, lists_once, name_order, sorted_texts, texts,
};
use crate::text::text_equals;
use vstd::prelude::*;

verus! {

/// A map from names to values.
#[derive(Debug)]
pub struct NameMap<V> {
    entries: Vec<(String, V)>,
}

impl<V> View for NameMap<V> {
    type V = Map<Seq<char>, V>;

    closed spec fn view(&self) -> Map<Seq<char>, V> {
        as_map(self.entries@)
    }
}

impl<V: Clone> Clone for NameMap<V> {
    fn clone(&self) -> (r: Self)
        ensures
            r@.dom() == self@.dom(),
            forall|name: Seq<char>| #[trigger]
                self@.contains_key(name) ==> cloned::<V>(self@[name], r@[name]),
    {
        proof {
            use_type_invariant(self);
        }
        let mut entries: Vec<(String, V)> = Vec::new();
        let mut i: usize = 0;
        while i < self.entries.len()
            invariant
                i <= self.entries@.len(),
                entries@.len() == i,
                forall|j: int|
                    0 <= j < i ==> (#[trigger] entries@[j]).0@ == self.entries@[j].0@ && cloned::<V>(
                        self.entries@[j].1,
                        entries@[j].1,
                    ),
            decreases self.entries@.len() - i,
        {
            let name = self.entries[i].0.clone();
            let value = self.entries[i].1.clone();
            entries.push((name, value));
            i += 1;
        }
        proof {
            assert forall|a: int, b: int| 0 <= a < b < entries@.len() implies (
            #[trigger] entries@[a]).0@ != (#[trigger] entries@[b]).0@ by {
                assert(self.entries@[a].0@ != self.entries@[b].0@);
            }
            assert forall|n: Seq<char>| as_map(entries@).contains_key(n) <==> self@.contains_key(
                n,
            ) by {
                if holds(entries@, n) {
                    assert(self.entries@[position_of(entries@, n)].0@ == n);
                }
                if holds(self.entries@, n) {
                    assert(entries@[position_of(self.entries@, n)].0@ == n);
                }
            }
            assert forall|n: Seq<char>| #[trigger] self@.contains_key(n) implies cloned::<V>(
                self@[n],
                as_map(entries@)[n],
            ) by {
                let j = position_of(self.entries@, n);
                assert(entries@[j].0@ == n);
                lemma_entry(entries@, j);
            }
            assert(as_map(entries@).dom() =~= self@.dom());
        }
        NameMap { entries }
    }
}

impl<V> NameMap<V> {
    #[verifier::type_invariant]
    spec fn unique(self) -> bool {
        no_name_twice(self.entries@)
    }

    /// A map without entries.
    pub fn new() -> (r: Self)
        ensures
            r@ == Map::<Seq<char>, V>::empty(),
    {
        let r = NameMap { entries: Vec::new() };
        assert(r@ =~= Map::<Seq<char>, V>::empty());
        r
    }

    fn find(&self, name: &str) -> (r: Option<usize>)
        ensures
            match r {
                Some(i) => i < self.entries@.len() && self.entries@[i as int].0@ == name@,
                None => !holds(self.entries@, name@),
            },
    {
        let mut i: usize = 0;
        while i < self.entries.len()
            invariant
                i <= self.entries@.len(),
                forall|j: int| 0 <= j < i ==> (#[trigger] self.entries@[j]).0@ != name@,
            decreases self.entries@.len() - i,
        {
            if text_equals(self.entries[i].0.as_str(), name) {
                return Some(i);
            }
            i += 1;
        }
        None
    }

    /// The value at `name`, if there is one.
    pub fn get(&self, name: &str) -> (r: Option<&V>)
        ensures
            match r {
                Some(value) => self@.contains_key(name@) && *value == self@[name@],
                None => !self@.contains_key(name@),
            },
    {
        proof {
            use_type_invariant(self);
        }
        match self.find(name) {
            Some(i) => {
                proof {
                    lemma_entry(self.entries@, i as int);
                }
                Some(&self.entries[i].1)
            },
            None => None,
        }
    }

    /// Takes the value at `name` out of the map.
    pub fn remove(&mut self, name: &str) -> (r: Option<V>)
        ensures
            match r {
                Some(value) => old(self)@.contains_key(name@) && value == old(self)@[name@],
                None => !old(self)@.contains_key(name@),
            },
            final(self)@ == old(self)@.remove(name@),
    {
        proof {
            use_type_invariant(&*self);
        }
        match self.find(name) {
            Some(i) => {
                proof {
                    lemma_remove(self.entries@, i as int);
                    lemma_entry(self.entries@, i as int);
                }
                let mut entries: Vec<(String, V)> = Vec::new();
                std::mem::swap(&mut entries, &mut self.entries);
                let (_, value) = entries.remove(i);
                self.entries = entries;
                Some(value)
            },
            None => {
                assert(self@ =~= self@.remove(name@));
                None
            },
        }
    }

    /// Puts `value` at `name`, in place of what was there.
    pub fn insert(&mut self, name: String, value: V)
        ensures
            final(self)@ == old(self)@.insert(name@, value),
    {
        let _ = self.remove(name.as_str());
        proof {
            use_type_invariant(&*self);
            let n = self.entries@.len() as int;
            lemma_insert(self.entries@, n, (name, value));
            assert(self.entries@.insert(n, (name, value)) =~= self.entries@.push((name, value)));
            assert(self@.insert(name@, value) =~= old(self)@.insert(name@, value));
        }
        let mut entries: Vec<(String, V)> = Vec::new();
        std::mem::swap(&mut entries, &mut self.entries);
        entries.push((name, value));
        self.entries = entries;
    }

    /// Whether the map has no entry.
    pub fn is_empty(&self) -> (r: bool)
        ensures
            r == (self@ == Map::<Seq<char>, V>::empty()),
    {
        proof {
            if self.entries@.len() > 0 {
                assert(holds(self.entries@, self.entries@[0].0@));
                assert(self@.contains_key(self.entries@[0].0@));
            } else {
                assert(self@ =~= Map::<Seq<char>, V>::empty());
            }
        }
        self.entries.len() == 0
    }

    /// The names in the map, each once.
    pub fn names(&self) -> (r: Vec<String>)
        ensures
            lists_once(texts(r@), self@.dom()),
    {
        proof {
            use_type_invariant(self);
        }
        let mut out: Vec<String> = Vec::new();
        let mut i: usize = 0;
        while i < self.entries.len()
            invariant
                i <= self.entries@.len(),
                out@.len() == i,
                forall|j: int| 0 <= j < i ==> #[trigger] out@[j]@ == self.entries@[j].0@,
            decreases self.entries@.len() - i,
        {
            out.push(self.entries[i].0.clone());
            i += 1;
        }
        proof {
            let listed = texts(out@);
            assert forall|a: int, b: int| 0 <= a < b < listed.len() implies listed[a]
                != listed[b] by {
                assert(self.entries@[a].0@ != self.entries@[b].0@);
            }
            assert forall|n: Seq<char>| listed.contains(n) <==> self@.dom().contains(n) by {
                if listed.contains(n) {
                    let j = listed.index_of(n);
                    assert(self.entries@[j].0@ == n);
                }
                if self@.dom().contains(n) {
                    let j = position_of(self.entries@, n);
                    assert(listed[j] == n);
                }
            }
            assert(listed.to_set() =~= self@.dom());
        }
        out
    }

    /// The names in the map by increasing order.
    pub fn sorted_names(&self) -> (r: Vec<String>)
        ensures
            is_name_order(texts(r@), self@.dom()),
            texts(r@) == name_order(self@.dom()),
    {
        let names = self.names();
        let r = sorted_texts(&names);
        proof {
            lemma_sorted_listing(texts(names@), texts(r@), self@.dom());
        }
        r
    }
}

} // verus!
