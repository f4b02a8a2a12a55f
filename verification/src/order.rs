//! Texts brought into order.

use crate::text::{text_le, text_lt, text_order_is_total};
use itertools::Itertools;
use vstd::prelude::*;
use vstd::relations::*;

verus! {

/// The texts that strings hold.
pub open spec fn texts(strings: Seq<String>) -> Seq<Seq<char>> {
    strings.map_values(|s: String| s@)
}

/// Every text stands strictly before those that follow it.
pub open spec fn increasing(order: Seq<Seq<char>>) -> bool {
    forall|i: int, j: int| 0 <= i < j < order.len() ==> text_lt(order[i], order[j])
}

/// `listed` holds each of the `names` once, in any order, and nothing else.
pub open spec fn lists_once(listed: Seq<Seq<char>>, names: Set<Seq<char>>) -> bool {
    listed.no_duplicates() && listed.to_set() == names
}

/// `order` holds each of the `names` once, by increasing order, and nothing else.
pub open spec fn is_name_order(order: Seq<Seq<char>>, names: Set<Seq<char>>) -> bool {
    increasing(order) && order.to_set() == names
}

/// The `names` by increasing order.
pub open spec fn name_order(names: Set<Seq<char>>) -> Seq<Seq<char>> {
    choose|order: Seq<Seq<char>>| is_name_order(order, names)
}

/// Names stand in increasing order in one way only.
pub proof fn name_order_is_unique(a: Seq<Seq<char>>, b: Seq<Seq<char>>, names: Set<Seq<char>>)
    requires
        is_name_order(a, names),
        is_name_order(b, names),
    ensures
        a == b,
    decreases a.len(),
{
    if a.len() == 0 || b.len() == 0 {
        if a.len() > 0 {
            assert(a.to_set().contains(a[0]));
            assert(b.to_set().contains(a[0]));
        }
        if b.len() > 0 {
            assert(b.to_set().contains(b[0]));
            assert(a.to_set().contains(b[0]));
        }
        assert(a =~= b);
    } else {
        let (x, y) = (a.last(), b.last());
        assert(a.to_set().contains(x));
        assert(b.to_set().contains(y));
        assert(b.to_set().contains(x));
        assert(a.to_set().contains(y));
        let i = b.index_of(x);
        let j = a.index_of(y);
        text_order_is_total(x, y, x);
        assert(x == y);
        assert forall|n: Seq<char>| a.drop_last().to_set().contains(n) <==> names.remove(
            x,
        ).contains(n) by {
            lemma_drop_last_set(a, n);
        }
        assert forall|n: Seq<char>| b.drop_last().to_set().contains(n) <==> names.remove(
            x,
        ).contains(n) by {
            lemma_drop_last_set(b, n);
        }
        assert(a.drop_last().to_set() =~= names.remove(x));
        assert(b.drop_last().to_set() =~= names.remove(x));
        name_order_is_unique(a.drop_last(), b.drop_last(), names.remove(x));
        assert(a =~= a.drop_last().push(x));
        assert(b =~= b.drop_last().push(y));
    }
}

proof fn lemma_drop_last_set(order: Seq<Seq<char>>, n: Seq<char>)
    requires
        increasing(order),
        order.len() > 0,
    ensures
        order.drop_last().contains(n) <==> order.contains(n) && n != order.last(),
{
    if order.drop_last().contains(n) {
        let i = order.drop_last().index_of(n);
        assert(order[i] == n);
        text_order_is_total(n, order.last(), n);
    }
    if order.contains(n) && n != order.last() {
        let i = order.index_of(n);
        assert(order.drop_last()[i] == n);
    }
}

/// Pairs of a number and a text, by the texts that their strings hold.
pub open spec fn pair_texts(pairs: Seq<(usize, String)>) -> Seq<(usize, Seq<char>)> {
    pairs.map_values(|p: (usize, String)| (p.0, p.1@))
}

/// The order of pairs: by their numbers, and by their texts where the numbers are equal.
pub open spec fn pair_le(a: (usize, Seq<char>), b: (usize, Seq<char>)) -> bool {
    a.0 < b.0 || (a.0 == b.0 && text_le(a.1, b.1))
}

/// Sorts pairs by increasing order.
///
/// Calls `itertools::Itertools::sorted` on the pairs. Believed of it: the result holds the same
/// pairs as often as the argument does, and none stands after a greater one; pairs are compared by
/// their numbers first and then by the bytes of their strings.
#[verifier::external_body]
fn sorted_pairs(items: Vec<(usize, String)>) -> (r: Vec<(usize, String)>)
    ensures
        pair_texts(r@).to_multiset() == pair_texts(items@).to_multiset(),
        forall|i: int, j: int|
            0 <= i < j < r@.len() ==> pair_le(
                #[trigger] pair_texts(r@)[i],
                #[trigger] pair_texts(r@)[j],
            ),
{
    items.into_iter().sorted().collect()
}

/// Pairs with the number zero are counted as their texts are.
proof fn lemma_count_texts(pairs: Seq<(usize, Seq<char>)>, text: Seq<char>)
    requires
        forall|i: int| 0 <= i < pairs.len() ==> (#[trigger] pairs[i]).0 == 0,
    ensures
        pairs.map_values(|p: (usize, Seq<char>)| p.1).to_multiset().count(text)
            == pairs.to_multiset().count((0, text)),
    decreases pairs.len(),
{
    broadcast use vstd::seq_lib::group_to_multiset_ensures;
    broadcast use vstd::multiset::group_multiset_axioms;

    let listed = pairs.map_values(|p: (usize, Seq<char>)| p.1);
    if pairs.len() > 0 {
        lemma_count_texts(pairs.drop_last(), text);
        let shorter = pairs.drop_last().map_values(|p: (usize, Seq<char>)| p.1);
        assert(pairs =~= pairs.drop_last().push(pairs.last()));
        assert(listed =~= shorter.push(pairs.last().1));
        assert(pairs.last().0 == 0);
    } else {
        assert(listed.len() == 0);
        assert(!listed.contains(text));
        assert(!pairs.contains((0, text)));
    }
}

/// Sorts texts by increasing order.
pub(crate) fn sorted_texts(items: &Vec<String>) -> (r: Vec<String>)
    ensures
        texts(r@).to_multiset() == texts(items@).to_multiset(),
        forall|i: int, j: int|
            0 <= i < j < r@.len() ==> text_le(#[trigger] texts(r@)[i], #[trigger] texts(r@)[j]),
{
    let mut pairs: Vec<(usize, String)> = Vec::new();
    let mut i: usize = 0;
    while i < items.len()
        invariant
            i <= items@.len(),
            pairs@.len() == i,
            forall|j: int|
                0 <= j < i ==> (#[trigger] pairs@[j]).0 == 0 && pairs@[j].1@ == items@[j]@,
        decreases items@.len() - i,
    {
        pairs.push((0, items[i].clone()));
        i += 1;
    }
    let ghost unsorted = pair_texts(pairs@);
    let pairs = sorted_pairs(pairs);
    let ghost sorted = pair_texts(pairs@);
    proof {
        broadcast use vstd::seq_lib::group_to_multiset_ensures;

        assert forall|j: int| 0 <= j < sorted.len() implies (#[trigger] sorted[j]).0 == 0 by {
            assert(sorted.contains(sorted[j]));
            assert(sorted.to_multiset().count(sorted[j]) > 0);
            assert(unsorted.contains(sorted[j]));
        }
    }
    let mut out: Vec<String> = Vec::new();
    let mut k: usize = 0;
    while k < pairs.len()
        invariant
            k <= pairs@.len(),
            out@.len() == k,
            forall|j: int| 0 <= j < k ==> (#[trigger] out@[j])@ == pairs@[j].1@,
        decreases pairs@.len() - k,
    {
        out.push(pairs[k].1.clone());
        k += 1;
    }
    proof {
        assert(texts(out@) =~= sorted.map_values(|p: (usize, Seq<char>)| p.1));
        assert(texts(items@) =~= unsorted.map_values(|p: (usize, Seq<char>)| p.1));
        assert forall|text: Seq<char>| #[trigger] texts(out@).to_multiset().count(text) == texts(
            items@,
        ).to_multiset().count(text) by {
            lemma_count_texts(sorted, text);
            lemma_count_texts(unsorted, text);
        }
        assert(texts(out@).to_multiset() =~= texts(items@).to_multiset());
        assert forall|a: int, b: int| 0 <= a < b < out@.len() implies text_le(
            #[trigger] texts(out@)[a],
            #[trigger] texts(out@)[b],
        ) by {
            assert(pair_le(sorted[a], sorted[b]));
            assert(sorted[a].0 == 0 && sorted[b].0 == 0);
        }
    }
    out
}

/// Pairs by decreasing order: the greatest number first.
pub open spec fn descending(pairs: Seq<(usize, Seq<char>)>) -> Seq<(usize, Seq<char>)> {
    pairs.sort_by(|a: (usize, Seq<char>), b: (usize, Seq<char>)| pair_le(b, a))
}

proof fn lemma_pair_order()
    ensures
        total_ordering(|a: (usize, Seq<char>), b: (usize, Seq<char>)| pair_le(b, a)),
{
    let leq = |a: (usize, Seq<char>), b: (usize, Seq<char>)| pair_le(b, a);
    assert forall|x: (usize, Seq<char>), y: (usize, Seq<char>)| #[trigger] leq(x, y) && #[trigger] leq(
        y,
        x,
    ) implies x == y by {
        text_order_is_total(x.1, y.1, x.1);
    }
    assert forall|x: (usize, Seq<char>), y: (usize, Seq<char>), z: (usize, Seq<char>)| #[trigger]
        leq(x, y) && #[trigger] leq(y, z) implies leq(x, z) by {
        text_order_is_total(z.1, y.1, x.1);
    }
    assert forall|x: (usize, Seq<char>), y: (usize, Seq<char>)| #[trigger] leq(x, y)
        || #[trigger] leq(y, x) by {
        text_order_is_total(x.1, y.1, x.1);
    }
}

/// The pairs by decreasing order hold every pair as often as it is given, and none stands after a
/// lesser one.
pub proof fn descending_is_sorted(pairs: Seq<(usize, Seq<char>)>)
    ensures
        descending(pairs).to_multiset() == pairs.to_multiset(),
        descending(pairs).len() == pairs.len(),
        forall|i: int, j: int|
            0 <= i < j < pairs.len() ==> pair_le(
                #[trigger] descending(pairs)[j],
                #[trigger] descending(pairs)[i],
            ),
{
    broadcast use vstd::seq_lib::group_to_multiset_ensures;

    let leq = |a: (usize, Seq<char>), b: (usize, Seq<char>)| pair_le(b, a);
    lemma_pair_order();
    pairs.lemma_sort_by_ensures(leq);
    assert(descending(pairs).to_multiset().len() == pairs.to_multiset().len());
    assert forall|i: int, j: int| 0 <= i < j < pairs.len() implies pair_le(
        #[trigger] descending(pairs)[j],
        #[trigger] descending(pairs)[i],
    ) by {
        assert(leq(descending(pairs)[i], descending(pairs)[j]));
    }
}

/// Sorts pairs by decreasing order.
pub fn sorted_descending(items: Vec<(usize, String)>) -> (r: Vec<(usize, String)>)
    ensures
        pair_texts(r@) == descending(pair_texts(items@)),
{
    let ghost given = pair_texts(items@);
    let pairs = sorted_pairs(items);
    let ghost sorted = pair_texts(pairs@);
    let mut out: Vec<(usize, String)> = Vec::new();
    let mut i: usize = pairs.len();
    while i > 0
        invariant
            i <= pairs@.len(),
            out@.len() == pairs@.len() - i,
            forall|j: int|
                0 <= j < out@.len() ==> (#[trigger] out@[j]).0 == pairs@[pairs@.len() - 1 - j].0
                    && out@[j].1@ == pairs@[pairs@.len() - 1 - j].1@,
        decreases i,
    {
        i -= 1;
        out.push((pairs[i].0, pairs[i].1.clone()));
    }
    proof {
        let leq = |a: (usize, Seq<char>), b: (usize, Seq<char>)| pair_le(b, a);
        let reversed = pair_texts(out@);
        assert(reversed =~= sorted.reverse());
        sorted.lemma_reverse_to_multiset();
        lemma_pair_order();
        given.lemma_sort_by_ensures(leq);
        assert forall|a: int, b: int| 0 <= a < b < reversed.len() implies #[trigger] leq(
            reversed[a],
            reversed[b],
        ) by {
            assert(pair_le(sorted[sorted.len() - 1 - b], sorted[sorted.len() - 1 - a]));
        }
        vstd::seq_lib::lemma_sorted_unique(reversed, descending(given), leq);
    }
    out
}

/// Sorted names, each given once, are the names by increasing order.
pub(crate) proof fn lemma_sorted_listing(
    listed: Seq<Seq<char>>,
    sorted: Seq<Seq<char>>,
    names: Set<Seq<char>>,
)
    requires
        lists_once(listed, names),
        sorted.to_multiset() == listed.to_multiset(),
        forall|i: int, j: int| 0 <= i < j < sorted.len() ==> text_le(sorted[i], sorted[j]),
    ensures
        is_name_order(sorted, names),
        sorted == name_order(names),
{
    listed.lemma_multiset_has_no_duplicates();
    sorted.lemma_multiset_has_no_duplicates_conv();
    listed.to_multiset_ensures();
    sorted.to_multiset_ensures();
    assert forall|n: Seq<char>| sorted.to_set().contains(n) <==> names.contains(n) by {
        assert(sorted.contains(n) <==> sorted.to_multiset().contains(n));
        assert(listed.contains(n) <==> listed.to_multiset().contains(n));
        assert(listed.contains(n) <==> listed.to_set().contains(n));
    }
    assert(sorted.to_set() =~= names);
    assert(increasing(sorted)) by {
        assert forall|i: int, j: int| 0 <= i < j < sorted.len() implies text_lt(
            sorted[i],
            sorted[j],
        ) by {
            assert(text_le(sorted[i], sorted[j]));
        }
    }
    assert(is_name_order(sorted, names));
    name_order_is_unique(sorted, name_order(names), names);
}

proof fn lemma_names_listed(names: Set<Seq<char>>)
    requires
        names.finite(),
    ensures
        names.to_seq().no_duplicates(),
        names.to_seq().to_set() == names,
    decreases names.len(),
{
    names.lemma_to_seq_to_set_id();
    if names.len() > 0 {
        let x = names.choose();
        let rest = names.remove(x);
        lemma_names_listed(rest);
        let listed = names.to_seq();
        assert(listed =~= seq![x] + rest.to_seq());
        assert forall|i: int, j: int| 0 <= i < j < listed.len() implies listed[i] != listed[j] by {
            assert(rest.to_seq().contains(listed[j])) by {
                assert(rest.to_seq()[j - 1] == listed[j]);
            }
            assert(rest.to_seq().to_set().contains(listed[j]));
            if i > 0 {
                assert(rest.to_seq()[i - 1] == listed[i]);
                assert(rest.to_seq()[j - 1] == listed[j]);
            }
        }
    }
}

/// Finitely many names can be put in increasing order, so that each of them stands there once.
pub proof fn names_can_be_ordered(names: Set<Seq<char>>)
    requires
        names.finite(),
    ensures
        is_name_order(name_order(names), names),
{
    let leq = |a: Seq<char>, b: Seq<char>| text_le(a, b);
    let listed = names.to_seq();
    lemma_names_listed(names);
    assert(total_ordering(leq)) by {
        assert forall|x: Seq<char>, y: Seq<char>| #[trigger] leq(x, y) && #[trigger] leq(
            y,
            x,
        ) implies x == y by {
            text_order_is_total(x, y, x);
        }
        assert forall|x: Seq<char>, y: Seq<char>, z: Seq<char>| #[trigger] leq(x, y)
            && #[trigger] leq(y, z) implies leq(x, z) by {
            text_order_is_total(x, y, z);
        }
        assert forall|x: Seq<char>, y: Seq<char>| #[trigger] leq(x, y) || #[trigger] leq(y, x) by {
            text_order_is_total(x, y, x);
        }
    }
    listed.lemma_sort_by_ensures(leq);
    let sorted = listed.sort_by(leq);
    assert forall|i: int, j: int| 0 <= i < j < sorted.len() implies text_le(sorted[i], sorted[j]) by {
        assert(leq(sorted[i], sorted[j]));
    }
    lemma_sorted_listing(listed, sorted, names);
}

/// Strings, and pairs of a number and a string, are read one by one.
pub proof fn strings_are_read_one_by_one(
    strings: Seq<String>,
    pairs: Seq<(usize, String)>,
    i: int,
)
    ensures
        texts(strings).len() == strings.len(),
        0 <= i < strings.len() ==> texts(strings)[i] == strings[i]@,
        pair_texts(pairs).len() == pairs.len(),
        0 <= i < pairs.len() ==> pair_texts(pairs)[i].0 == pairs[i].0 && pair_texts(pairs)[i].1
            == pairs[i].1@,
{
}

} // verus!
