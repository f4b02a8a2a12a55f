//! Lists of named entries, read as maps.

use vstd::prelude::*;

verus! {

/// Where the entry of `name` stands.
pub open spec fn position_of<V>(entries: Seq<(String, V)>, name: Seq<char>) -> int {
    choose|i: int| 0 <= i < entries.len() && (#[trigger] entries[i]).0@ == name
}

/// There is an entry of `name`.
pub open spec fn holds<V>(entries: Seq<(String, V)>, name: Seq<char>) -> bool {
    exists|i: int| 0 <= i < entries.len() && (#[trigger] entries[i]).0@ == name
}

/// No two entries have the same name.
pub open spec fn no_name_twice<V>(entries: Seq<(String, V)>) -> bool {
    forall|i: int, j: int|
        0 <= i < j < entries.len() ==> (#[trigger] entries[i]).0@ != (#[trigger] entries[j]).0@
}

/// The entries as a map.
pub open spec fn as_map<V>(entries: Seq<(String, V)>) -> Map<Seq<char>, V> {
    Map::new(
        |name: Seq<char>| holds(entries, name),
        |name: Seq<char>| entries[position_of(entries, name)].1,
    )
}

pub(crate) proof fn lemma_entry<V>(entries: Seq<(String, V)>, i: int)
    requires
        no_name_twice(entries),
        0 <= i < entries.len(),
    ensures
        as_map(entries).contains_key(entries[i].0@),
        as_map(entries)[entries[i].0@] == entries[i].1,
{
    let j = position_of(entries, entries[i].0@);
    assert(entries[j].0@ == entries[i].0@);
    assert(j == i);
}

pub(crate) proof fn lemma_remove<V>(entries: Seq<(String, V)>, i: int)
    requires
        no_name_twice(entries),
        0 <= i < entries.len(),
    ensures
        no_name_twice(entries.remove(i)),
        as_map(entries.remove(i)) == as_map(entries).remove(entries[i].0@),
{
    let rest = entries.remove(i);
    let name = entries[i].0@;
    assert forall|n: Seq<char>| as_map(rest).contains_key(n) <==> as_map(entries).remove(
        name,
    ).contains_key(n) by {
        if holds(rest, n) {
            let j = position_of(rest, n);
            assert(rest[j] == entries[if j < i { j } else { j + 1 }]);
        }
        if holds(entries, n) && n != name {
            let j = position_of(entries, n);
            assert(rest[if j < i { j } else { j - 1 }] == entries[j]);
        }
    }
    assert forall|n: Seq<char>| #[trigger] as_map(rest).contains_key(n) implies as_map(rest)[n]
        == as_map(entries).remove(name)[n] by {
        let j = position_of(rest, n);
        let k = if j < i { j } else { j + 1 };
        assert(rest[j] == entries[k]);
        lemma_entry(entries, k);
    }
    assert(as_map(rest) =~= as_map(entries).remove(name));
}

pub(crate) proof fn lemma_insert<V>(entries: Seq<(String, V)>, i: int, entry: (String, V))
    requires
        no_name_twice(entries),
        0 <= i <= entries.len(),
        !as_map(entries).contains_key(entry.0@),
    ensures
        no_name_twice(entries.insert(i, entry)),
        as_map(entries.insert(i, entry)) == as_map(entries).insert(entry.0@, entry.1),
{
    let more = entries.insert(i, entry);
    let name = entry.0@;
    assert forall|a: int, b: int| 0 <= a < b < more.len() implies (#[trigger] more[a]).0@ != (
    #[trigger] more[b]).0@ by {
        let j = if a < i { a } else { a - 1 };
        let k = if b < i { b } else { b - 1 };
        assert(a != i ==> more[a] == entries[j]);
        assert(b != i ==> more[b] == entries[k]);
        assert(!holds(entries, name));
    }
    assert forall|n: Seq<char>| as_map(more).contains_key(n) <==> as_map(entries).insert(
        name,
        entry.1,
    ).contains_key(n) by {
        if n == name {
            assert(more[i].0@ == n);
        }
        if holds(more, n) && n != name {
            let j = position_of(more, n);
            assert(more[j] == entries[if j < i { j } else { j - 1 }]);
        }
        if holds(entries, n) {
            let j = position_of(entries, n);
            assert(more[if j < i { j } else { j + 1 }] == entries[j]);
        }
    }
    assert forall|n: Seq<char>| #[trigger] as_map(more).contains_key(n) implies as_map(more)[n]
        == as_map(entries).insert(name, entry.1)[n] by {
        let j = position_of(more, n);
        if j != i {
            let k = if j < i { j } else { j - 1 };
            assert(more[j] == entries[k]);
            lemma_entry(entries, k);
        } else {
            lemma_entry(more, i);
        }
    }
    assert(as_map(more) =~= as_map(entries).insert(name, entry.1));
}

} // verus!
