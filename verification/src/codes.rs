//! Counters of status codes: how often a code was returned.

use crate::request::code_count;
use crate::sums::{total_of, totals_add_up};
use crate::text::{
    decimal, decimal_text, format_number, grouped, numbers_can_be_read_back, value_of,
};
use std::collections::HashMap;
use vstd::prelude::*;
use vstd::std_specs::hash::*;
use vstd::std_specs::iter::IteratorSpec;

verus! {

broadcast use vstd::std_specs::hash::group_hash_axioms;

/// `listed` holds every entry of `counts` once, in any order, and nothing else.
pub open spec fn lists_codes(listed: Seq<(u16, usize)>, counts: Map<u16, usize>) -> bool {
    &&& forall|i: int, j: int| 0 <= i < j < listed.len() ==> listed[i].0 != listed[j].0
    &&& forall|i: int|
        0 <= i < listed.len() ==> #[trigger] counts.contains_key(listed[i].0)
            && counts[listed[i].0] == listed[i].1
    &&& forall|code: u16| #[trigger]
        counts.contains_key(code) ==> exists|i: int|
            0 <= i < listed.len() && #[trigger] listed[i].0 == code
}

proof fn lemma_iter_lists(counts: &HashMap<u16, usize>, walked: Seq<(&u16, &usize)>)
    requires
        walked == spec_hash_map_iter(counts).remaining(),
        walked.no_duplicates(),
    ensures
        lists_codes(walked.map_values(|kv: (&u16, &usize)| (*kv.0, *kv.1)), counts@),
{
    let pairs = walked.map_values(|kv: (&u16, &usize)| (*kv.0, *kv.1));
    assert forall|i: int| 0 <= i < pairs.len() implies #[trigger] counts@.contains_key(pairs[i].0)
        && counts@[pairs[i].0] == pairs[i].1 by {
        assert(counts@.contains_key(*walked[i].0));
    }
    assert forall|i: int, j: int| 0 <= i < j < pairs.len() implies pairs[i].0 != pairs[j].0 by {
        assert(counts@.contains_key(pairs[i].0));
        assert(counts@.contains_key(pairs[j].0));
        if pairs[i].0 == pairs[j].0 {
            assert(walked[i] == walked[j]);
        }
    }
    assert forall|code: u16| #[trigger] counts@.contains_key(code) implies exists|i: int|
        0 <= i < pairs.len() && #[trigger] pairs[i].0 == code by {
        let i = walked.index_of((&code, &counts@[code]));
        assert(pairs[i].0 == code);
    }
}

/// The entries of `counts`, in the order in which the map is walked.
fn code_entries(counts: &HashMap<u16, usize>) -> (r: Vec<(u16, usize)>)
    ensures
        lists_codes(r@, counts@),
{
    let mut out: Vec<(u16, usize)> = Vec::new();
    let iter = counts.iter();
    proof {
        lemma_iter_lists(counts, iter.remaining());
    }
    for entry in it: iter
        invariant
            lists_codes(it.seq().map_values(|kv: (&u16, &usize)| (*kv.0, *kv.1)), counts@),
            out@ == it.seq().take(it.index()).map_values(|kv: (&u16, &usize)| (*kv.0, *kv.1)),
            it.index() == it.seq().len() ==> lists_codes(out@, counts@),
    {
        out.push((*entry.0, *entry.1));
        assert(it.index() + 1 == it.seq().len() ==> out@ =~= it.seq().map_values(
            |kv: (&u16, &usize)| (*kv.0, *kv.1),
        ));
    }
    out
}

/// How one code is shown: how often it was returned, and in brackets the code.
pub open spec fn code_cell(code: u16, count: usize) -> Seq<char> {
    grouped(count as nat) + " ["@ + decimal(code as nat) + "]"@
}

/// How codes are shown, one after the other.
pub open spec fn codes_text(listed: Seq<(u16, usize)>) -> Seq<char>
    decreases listed.len(),
{
    if listed.len() == 0 {
        Seq::empty()
    } else if listed.len() == 1 {
        code_cell(listed[0].0, listed[0].1)
    } else {
        codes_text(listed.drop_last()) + ", "@ + code_cell(listed.last().0, listed.last().1)
    }
}

/// `text` shows all codes of `counts`, in some order.
pub open spec fn shows_codes(text: Seq<char>, counts: Map<u16, usize>) -> bool {
    exists|listed: Seq<(u16, usize)>|
        lists_codes(listed, counts) && text == #[trigger] codes_text(listed)
}

fn code_cell_text(code: u16, count: usize) -> (r: String)
    ensures
        r@ == code_cell(code, count),
{
    let mut out = format_number(count);
    out.append(" [");
    out.append(decimal_text(code as usize).as_str());
    out.append("]");
    out
}

/// Writes codes one after the other, in the order given.
pub fn format_codes(listed: &Vec<(u16, usize)>) -> (r: String)
    ensures
        r@ == codes_text(listed@),
{
    let mut codes = String::new();
    let mut i: usize = 0;
    assert(listed@.take(0) =~= Seq::<(u16, usize)>::empty());
    while i < listed.len()
        invariant
            i <= listed@.len(),
            codes@ == codes_text(listed@.take(i as int)),
        decreases listed@.len() - i,
    {
        let (code, count): (u16, usize) = listed[i];
        proof {
            let longer = listed@.take(i + 1);
            assert(longer.drop_last() =~= listed@.take(i as int));
            assert(longer.last() == listed@[i as int]);
        }
        let cell = code_cell_text(code, count);
        if i == 0 {
            codes = cell;
        } else {
            codes.append(", ");
            codes.append(cell.as_str());
        }
        i += 1;
    }
    assert(listed@.take(listed@.len() as int) =~= listed@);
    codes
}

/// No code was counted so often in both that the two counters have no sum.
pub open spec fn codes_fit(a: Map<u16, usize>, b: Map<u16, usize>) -> bool {
    forall|code: u16| #[trigger] code_count(a, code) + code_count(b, code) <= usize::MAX
}

/// What was counted in `a` and in `b`, taken together.
pub open spec fn codes_merged(a: Map<u16, usize>, b: Map<u16, usize>) -> Map<u16, usize> {
    Map::new(
        |code: u16| a.contains_key(code) || b.contains_key(code),
        |code: u16| (code_count(a, code) + code_count(b, code)) as usize,
    )
}

/// One of the first `n` entries is that of `code`.
spec fn listed_before(listed: Seq<(u16, usize)>, n: int, code: u16) -> bool {
    exists|j: int| 0 <= j < n && (#[trigger] listed[j]).0 == code
}

fn add_codes(aggregate: &mut HashMap<u16, usize>, listed: &Vec<(u16, usize)>, Ghost(counts): Ghost<
    Map<u16, usize>,
>)
    requires
        lists_codes(listed@, counts),
        codes_fit(old(aggregate)@, counts),
    ensures
        final(aggregate)@ == codes_merged(old(aggregate)@, counts),
{
    let ghost start = aggregate@;
    let mut i: usize = 0;
    while i < listed.len()
        invariant
            i <= listed@.len(),
            lists_codes(listed@, counts),
            codes_fit(start, counts),
            forall|code: u16| #[trigger]
                aggregate@.contains_key(code) <==> start.contains_key(code) || listed_before(
                    listed@,
                    i as int,
                    code,
                ),
            forall|code: u16| #[trigger]
                aggregate@.contains_key(code) ==> aggregate@[code] == code_count(start, code)
                    + if listed_before(listed@, i as int, code) {
                    code_count(counts, code)
                } else {
                    0
                },
        decreases listed@.len() - i,
    {
        let (status_code, count): (u16, usize) = listed[i];
        let ghost before = aggregate@;
        proof {
            assert(counts.contains_key(listed@[i as int].0));
            assert(code_count(start, status_code) + code_count(counts, status_code) <= usize::MAX);
            assert(!listed_before(listed@, i as int, status_code));
            assert(before.contains_key(status_code) <==> start.contains_key(status_code));
        }
        let new_count: usize = match aggregate.get(&status_code) {
            Some(existing_count) => *existing_count + count,
            None => count,
        };
        aggregate.insert(status_code, new_count);
        proof {
            assert forall|code: u16| listed_before(listed@, i + 1, code) <==> listed_before(
                listed@,
                i as int,
                code,
            ) || code == status_code by {
                if code == status_code {
                    assert(listed@[i as int].0 == code);
                }
                if listed_before(listed@, i as int, code) {
                    let j = choose|j: int| 0 <= j < i && (#[trigger] listed@[j]).0 == code;
                    assert(listed@[j].0 == code && 0 <= j < i + 1);
                }
            }
            assert forall|code: u16| #[trigger]
                aggregate@.contains_key(code) implies aggregate@[code] == code_count(start, code)
                + if listed_before(listed@, i + 1, code) {
                code_count(counts, code)
            } else {
                0
            } by {
                if code != status_code {
                    assert(before.contains_key(code));
                }
            }
        }
        i += 1;
    }
    proof {
        assert forall|code: u16| listed_before(listed@, listed@.len() as int, code)
            == counts.contains_key(code) by {
            if listed_before(listed@, listed@.len() as int, code) {
                let j = choose|j: int| 0 <= j < listed@.len() && (#[trigger] listed@[j]).0 == code;
                assert(counts.contains_key(listed@[j].0));
            }
        }
        assert forall|code: u16| #[trigger] aggregate@.contains_key(code) implies aggregate@[code]
            == codes_merged(start, counts)[code] by {
            assert(code_count(start, code) + code_count(counts, code) <= usize::MAX);
        }
        assert(aggregate@ =~= codes_merged(start, counts));
    }
}

/// Counts and aggregates seen status codes. The codes are written in the order in which the map
/// is walked, which is not fixed.
pub fn prepare_status_codes(
    status_code_counts: &HashMap<u16, usize>,
    aggregate_counts: &mut Option<&mut HashMap<u16, usize>>,
) -> (r: String)
    requires
        *old(aggregate_counts) matches Some(aggregate) ==> codes_fit(
            aggregate@,
            status_code_counts@,
        ),
    ensures
        shows_codes(r@, status_code_counts@),
        match *old(aggregate_counts) {
            Some(before) => *final(aggregate_counts) matches Some(after) && after@ == codes_merged(
                before@,
                status_code_counts@,
            ) && *final(after) == *final(before),
            None => *final(aggregate_counts) is None,
        },
{
    let listed = code_entries(status_code_counts);
    let codes = format_codes(&listed);
    if let Some(aggregate_status_code_counts) = aggregate_counts.as_mut() {
        add_codes(aggregate_status_code_counts, &listed, Ghost(status_code_counts@));
    }
    codes
}

/// Whether the counters of two sets of codes can be merged without overflow.
pub fn can_merge_codes(a: &HashMap<u16, usize>, b: &HashMap<u16, usize>) -> (r: bool)
    ensures
        r == codes_fit(a@, b@),
{
    let listed = code_entries(b);
    let mut i: usize = 0;
    while i < listed.len()
        invariant
            i <= listed@.len(),
            lists_codes(listed@, b@),
            forall|j: int|
                0 <= j < i ==> code_count(a@, (#[trigger] listed@[j]).0) + listed@[j].1
                    <= usize::MAX,
        decreases listed@.len() - i,
    {
        let (code, count): (u16, usize) = listed[i];
        assert(b@.contains_key(listed@[i as int].0));
        let present: usize = match a.get(&code) {
            Some(c) => *c,
            None => 0,
        };
        if count > usize::MAX - present {
            assert(code_count(a@, code) + code_count(b@, code) > usize::MAX);
            return false;
        }
        i += 1;
    }
    assert forall|code: u16| #[trigger] code_count(a@, code) + code_count(b@, code)
        <= usize::MAX by {
        if b@.contains_key(code) {
            let j = choose|j: int| 0 <= j < listed@.len() && (#[trigger] listed@[j]).0 == code;
            assert(b@.contains_key(listed@[j].0));
        }
    }
    true
}

/// The counters of several requests taken together.
pub open spec fn codes_sum(counts: Seq<Map<u16, usize>>) -> Map<u16, usize>
    decreases counts.len(),
{
    if counts.len() == 0 {
        Map::empty()
    } else {
        codes_merged(codes_sum(counts.drop_last()), counts.last())
    }
}

/// The counters of several requests can be taken together.
pub open spec fn codes_sum_fits(counts: Seq<Map<u16, usize>>) -> bool
    decreases counts.len(),
{
    counts.len() == 0 || (codes_sum_fits(counts.drop_last()) && codes_fit(
        codes_sum(counts.drop_last()),
        counts.last(),
    ))
}

/// What can be taken together can also be taken together in part.
pub(crate) proof fn lemma_prefix_fits(counts: Seq<Map<u16, usize>>, n: int)
    requires
        codes_sum_fits(counts),
        0 <= n <= counts.len(),
    ensures
        codes_sum_fits(counts.take(n)),
    decreases counts.len(),
{
    if n == counts.len() {
        assert(counts.take(n) =~= counts);
    } else {
        lemma_prefix_fits(counts.drop_last(), n);
        assert(counts.drop_last().take(n) =~= counts.take(n));
    }
}

/// Merging counts every code as often as both together, and nothing else.
pub proof fn merging_adds_codes(a: Map<u16, usize>, b: Map<u16, usize>, code: u16)
    requires
        codes_fit(a, b),
    ensures
        code_count(codes_merged(a, b), code) == code_count(a, code) + code_count(b, code),
        codes_merged(a, b).contains_key(code) <==> a.contains_key(code) || b.contains_key(code),
{
    assert(code_count(a, code) + code_count(b, code) <= usize::MAX);
}

/// It does not matter in which order codes are merged, and merging none of them changes nothing.
pub proof fn codes_in_any_order(a: Map<u16, usize>, b: Map<u16, usize>, c: Map<u16, usize>)
    requires
        codes_fit(a, b),
        codes_fit(codes_merged(a, b), c),
    ensures
        codes_fit(b, a),
        codes_fit(b, c),
        codes_fit(a, codes_merged(b, c)),
        codes_merged(a, b) == codes_merged(b, a),
        codes_merged(codes_merged(a, b), c) == codes_merged(a, codes_merged(b, c)),
        codes_merged(a, Map::empty()) == a,
        codes_merged(Map::empty(), a) == a,
{
    let (ab, bc) = (codes_merged(a, b), codes_merged(b, c));
    assert forall|code: u16|
        code_count(a, code) + code_count(b, code) + code_count(c, code) <= usize::MAX && code_count(
            ab,
            code,
        ) == #[trigger] code_count(a, code) + code_count(b, code) && code_count(bc, code)
            == code_count(b, code) + code_count(c, code) by {
        assert(code_count(a, code) + code_count(b, code) <= usize::MAX);
        assert(code_count(ab, code) + code_count(c, code) <= usize::MAX);
    }
    assert forall|code: u16| #[trigger] code_count(b, code) + code_count(c, code) <= usize::MAX by {
        assert(code_count(a, code) + code_count(b, code) + code_count(c, code) <= usize::MAX);
    }
    assert forall|code: u16| #[trigger] code_count(b, code) + code_count(a, code) <= usize::MAX by {
        assert(code_count(a, code) + code_count(b, code) <= usize::MAX);
    }
    assert forall|code: u16| #[trigger] code_count(a, code) + code_count(bc, code)
        <= usize::MAX by {
        assert(code_count(a, code) + code_count(b, code) + code_count(c, code) <= usize::MAX);
    }
    assert(ab =~= codes_merged(b, a));
    assert(codes_merged(a, Map::empty()) =~= a);
    assert(codes_merged(Map::empty(), a) =~= a);
    let (left, right) = (codes_merged(ab, c), codes_merged(a, bc));
    assert forall|code: u16| #[trigger] left.contains_key(code) implies left[code]
        == right[code] by {
        assert(code_count(a, code) + code_count(b, code) + code_count(c, code) <= usize::MAX);
    }
    assert(left =~= right);
}

/// The listed codes are those that were counted, each of them once with its counter.
pub proof fn listings_hold_every_code_once(listed: Seq<(u16, usize)>, counts: Map<u16, usize>)
    ensures
        lists_codes(listed, counts) <==> listed.no_duplicates() && forall|code: u16, count: usize|
            #[trigger]
            listed.contains((code, count)) <==> counts.contains_key(code) && counts[code] == count,
{
    if lists_codes(listed, counts) {
        assert forall|code: u16, count: usize| #[trigger] listed.contains((code, count))
            <==> counts.contains_key(code) && counts[code] == count by {
            if listed.contains((code, count)) {
                let i = listed.index_of((code, count));
                assert(counts.contains_key(listed[i].0));
            }
            if counts.contains_key(code) && counts[code] == count {
                let i = choose|i: int| 0 <= i < listed.len() && (#[trigger] listed[i]).0 == code;
                assert(counts.contains_key(listed[i].0));
                assert(listed[i] == (code, count));
            }
        }
    }
    if listed.no_duplicates() && forall|code: u16, count: usize| #[trigger]
        listed.contains((code, count)) <==> counts.contains_key(code) && counts[code] == count {
        assert forall|i: int| 0 <= i < listed.len() implies #[trigger] counts.contains_key(
            listed[i].0,
        ) && counts[listed[i].0] == listed[i].1 by {
            assert(listed.contains((listed[i].0, listed[i].1))) by {
                assert(listed[i] == (listed[i].0, listed[i].1));
            }
        }
        assert forall|i: int, j: int| 0 <= i < j < listed.len() implies listed[i].0
            != listed[j].0 by {
            assert(counts.contains_key(listed[i].0));
            assert(counts.contains_key(listed[j].0));
            if listed[i].0 == listed[j].0 {
                assert(listed[i] == listed[j]);
            }
        }
        assert forall|code: u16| #[trigger] counts.contains_key(code) implies exists|i: int|
            0 <= i < listed.len() && #[trigger] listed[i].0 == code by {
            assert(listed.contains((code, counts[code])));
            let i = listed.index_of((code, counts[code]));
            assert(listed[i].0 == code);
        }
    }
}

/// A single code is shown by its counter and, in brackets, its number; both can be read back. Two
/// lists of codes are shown one after the other, with a comma and a space between them.
pub proof fn codes_are_shown_one_after_the_other(
    code: u16,
    count: usize,
    a: Seq<(u16, usize)>,
    b: Seq<(u16, usize)>,
)
    ensures
        codes_text(Seq::empty()).len() == 0,
        codes_text(seq![(code, count)]) == grouped(count as nat) + seq![' ', '['] + decimal(
            code as nat,
        ) + seq![']'],
        value_of(grouped(count as nat)) == count,
        value_of(decimal(code as nat)) == code,
        a.len() > 0 && b.len() > 0 ==> codes_text(a + b) == codes_text(a) + seq![',', ' ']
            + codes_text(b),
    decreases b.len(),
{
    numbers_can_be_read_back(count as nat);
    numbers_can_be_read_back(code as nat);
    reveal_strlit(" [");
    reveal_strlit("]");
    reveal_strlit(", ");
    assert(" ["@ =~= seq![' ', '[']);
    assert("]"@ =~= seq![']']);
    assert(", "@ =~= seq![',', ' ']);
    if a.len() > 0 && b.len() > 0 {
        assert((a + b).drop_last() =~= a + b.drop_last());
        assert((a + b).last() == b.last());
        if b.len() == 1 {
            assert(a + b.drop_last() =~= a);
            assert(b.last() == b[0]);
        } else {
            codes_are_shown_one_after_the_other(code, count, a, b.drop_last());
            assert(codes_text(a + b) =~= codes_text(a) + seq![',', ' '] + codes_text(b));
        }
    }
}

/// How often a code was returned in all of several requests.
pub open spec fn code_total(counts: Seq<Map<u16, usize>>, code: u16) -> int {
    total_of(counts.map_values(|m: Map<u16, usize>| code_count(m, code) as int))
}

proof fn lemma_code_total(counts: Seq<Map<u16, usize>>, code: u16)
    requires
        counts.len() > 0,
    ensures
        code_total(counts, code) == code_total(counts.drop_last(), code) + code_count(
            counts.last(),
            code,
        ),
{
    let all = counts.map_values(|m: Map<u16, usize>| code_count(m, code) as int);
    let rest = counts.drop_last().map_values(|m: Map<u16, usize>| code_count(m, code) as int);
    totals_add_up(rest, rest, code_count(counts.last(), code) as int);
    assert(all =~= rest.push(code_count(counts.last(), code) as int));
}

/// The counters of several requests, taken together, say of every code how often it was returned
/// in all of them; and they can be taken together exactly where these sums are not too large.
pub proof fn code_sums_count_every_request(counts: Seq<Map<u16, usize>>)
    ensures
        codes_sum_fits(counts) <==> forall|code: u16| #[trigger]
            code_total(counts, code) <= usize::MAX,
        codes_sum_fits(counts) ==> forall|code: u16|
            code_count(codes_sum(counts), code) == #[trigger] code_total(counts, code),
        codes_sum_fits(counts) ==> forall|code: u16| #[trigger]
            codes_sum(counts).contains_key(code) <==> exists|i: int|
                0 <= i < counts.len() && (#[trigger] counts[i]).contains_key(code),
    decreases counts.len(),
{
    if counts.len() == 0 {
        assert forall|code: u16| #[trigger] code_total(counts, code) == 0 by {
            assert(counts.map_values(|m: Map<u16, usize>| code_count(m, code) as int)
                =~= Seq::empty());
        }
    } else {
        let (rest, last) = (counts.drop_last(), counts.last());
        code_sums_count_every_request(rest);
        assert forall|code: u16| #[trigger] code_total(counts, code) == code_total(rest, code)
            + code_count(last, code) by {
            lemma_code_total(counts, code);
        }
        if forall|code: u16| #[trigger] code_total(counts, code) <= usize::MAX {
            assert forall|code: u16| #[trigger] code_total(rest, code) <= usize::MAX by {
                assert(code_total(counts, code) <= usize::MAX);
            }
            assert forall|code: u16| #[trigger] code_count(codes_sum(rest), code) + code_count(
                last,
                code,
            ) <= usize::MAX by {
                assert(code_total(counts, code) <= usize::MAX);
                assert(code_count(codes_sum(rest), code) == code_total(rest, code));
            }
        }
        if codes_sum_fits(counts) {
            assert forall|code: u16|
                code_count(codes_sum(counts), code) == #[trigger] code_total(counts, code)
                    && code_total(counts, code) <= usize::MAX by {
                merging_adds_codes(codes_sum(rest), last, code);
                assert(code_count(codes_sum(rest), code) == code_total(rest, code));
                assert(code_count(codes_sum(rest), code) + code_count(last, code) <= usize::MAX);
            }
            assert forall|code: u16| #[trigger] codes_sum(counts).contains_key(code)
                <==> exists|i: int|
                0 <= i < counts.len() && (#[trigger] counts[i]).contains_key(code) by {
                merging_adds_codes(codes_sum(rest), last, code);
                if codes_sum(rest).contains_key(code) {
                    let i = choose|i: int|
                        0 <= i < rest.len() && (#[trigger] rest[i]).contains_key(code);
                    assert(counts[i].contains_key(code));
                }
                if last.contains_key(code) {
                    assert(counts[counts.len() - 1].contains_key(code));
                }
                if exists|i: int|
                    0 <= i < counts.len() && (#[trigger] counts[i]).contains_key(code) {
                    let i = choose|i: int|
                        0 <= i < counts.len() && (#[trigger] counts[i]).contains_key(code);
                    if i < rest.len() {
                        assert(rest[i].contains_key(code));
                    }
                }
            }
        }
    }
}

} // verus!
