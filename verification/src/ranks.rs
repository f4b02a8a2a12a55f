//! Ranks of times, told by the times in their order.

use crate::times::{
    count_up_to, counters, counters_count_what_was_seen, displayed_time, is_time_at_rank,
    lemma_count_at_most_all, lemma_count_nothing, lemma_count_one_more, middle_rank, reaches,
    time_at_rank,
};
use vstd::prelude::*;

verus! {

/// No time stands before a shorter one.
pub open spec fn in_order(times: Seq<usize>) -> bool {
    forall|i: int, j: int| 0 <= i <= j < times.len() ==> times[i] <= times[j]
}

spec fn at_most(bound: int) -> spec_fn(usize) -> bool {
    |time: usize| time <= bound
}

proof fn lemma_filter_all<T>(items: Seq<T>, p: spec_fn(T) -> bool, holds: bool)
    requires
        forall|i: int| 0 <= i < items.len() ==> p(#[trigger] items[i]) == holds,
    ensures
        items.filter(p).len() == if holds {
            items.len()
        } else {
            0
        },
    decreases items.len(),
{
    reveal(Seq::filter);
    if items.len() > 0 {
        assert(items[items.len() - 1] == items.last());
        assert forall|i: int| 0 <= i < items.len() - 1 implies p(#[trigger] items.drop_last()[i])
            == holds by {
            assert(items.drop_last()[i] == items[i]);
        }
        lemma_filter_all(items.drop_last(), p, holds);
    }
}

proof fn lemma_counted_up_to(seen: Seq<usize>, bound: int)
    requires
        seen.len() <= usize::MAX,
        bound <= usize::MAX,
    ensures
        count_up_to(counters(seen), bound) == seen.filter(at_most(bound)).len(),
    decreases seen.len(),
{
    reveal(Seq::filter);
    if seen.len() == 0 {
        lemma_count_nothing(bound);
    } else {
        let rest = seen.drop_last();
        lemma_counted_up_to(rest, bound);
        counters_count_what_was_seen(rest, seen.last());
        lemma_count_at_most_all(counters(rest), seen.last());
        lemma_count_one_more(counters(rest), seen.last(), bound);
    }
}

proof fn lemma_split_count(seen: Seq<usize>, k: int, bound: int)
    requires
        in_order(seen),
        seen.len() <= usize::MAX,
        0 <= k < seen.len(),
        bound <= usize::MAX,
    ensures
        bound >= seen[k] ==> count_up_to(counters(seen), bound) >= k + 1,
        bound < seen[k] ==> count_up_to(counters(seen), bound) <= k,
{
    let p = at_most(bound);
    lemma_counted_up_to(seen, bound);
    if bound >= seen[k] {
        let (a, b) = (seen.take(k + 1), seen.skip(k + 1));
        assert(seen =~= a + b);
        Seq::<usize>::filter_distributes_over_add(a, b, p);
        lemma_filter_all(a, p, true);
    } else {
        let (a, b) = (seen.take(k), seen.skip(k));
        assert(seen =~= a + b);
        Seq::<usize>::filter_distributes_over_add(a, b, p);
        lemma_filter_all(b, p, false);
        a.filter_lemma(p);
    }
}

/// The time at a rank is the one that stands there when the times are put in order, counted from
/// one; rank zero is that of the shortest time, and there is none beyond the number of times.
pub proof fn ranks_are_places_in_order(seen: Seq<usize>, rank: nat)
    requires
        in_order(seen),
        0 < seen.len() <= usize::MAX,
    ensures
        0 < rank <= seen.len() ==> time_at_rank(counters(seen), rank) == Some(seen[rank - 1]),
        rank == 0 ==> time_at_rank(counters(seen), rank) == Some(seen[0]),
        rank > seen.len() ==> time_at_rank(counters(seen), rank) is None,
{
    let times = counters(seen);
    if rank <= seen.len() {
        let k = if rank == 0 {
            0
        } else {
            rank - 1
        };
        let time = seen[k];
        counters_count_what_was_seen(seen, time);
        assert(seen.contains(time));
        lemma_split_count(seen, k, time as int);
        assert(reaches(times, rank, time));
        assert forall|other: usize| reaches(times, rank, other) implies time <= other by {
            counters_count_what_was_seen(seen, other);
            lemma_split_count(seen, k, other as int);
            let j = seen.index_of(other);
            assert(seen[j] == other);
        }
        assert(is_time_at_rank(times, rank, time));
        let found = time_at_rank(times, rank)->Some_0;
        assert(is_time_at_rank(times, rank, found));
    } else {
        assert forall|time: usize| !is_time_at_rank(times, rank, time) by {
            lemma_counted_up_to(seen, time as int);
            seen.filter_lemma(at_most(time as int));
        }
    }
}

/// The median is the middle one of the times when they are put in order; of an even number of
/// times, the shorter one of the middle two.
pub proof fn median_stands_in_the_middle(seen: Seq<usize>)
    requires
        in_order(seen),
        0 < seen.len() <= usize::MAX,
    ensures
        time_at_rank(counters(seen), middle_rank(seen.len())) == Some(seen[(seen.len() - 1) / 2]),
{
    ranks_are_places_in_order(seen, middle_rank(seen.len()));
}

/// What is displayed for a rank is the time at that rank; where that is below the given minimum, the
/// minimum, else where that is above the given maximum, the maximum; and where there is none, zero.
pub proof fn displayed_times_stand_in_order(
    seen: Seq<usize>,
    rank: nat,
    min: usize,
    max: usize,
)
    requires
        in_order(seen),
        0 < seen.len() <= usize::MAX,
    ensures
        ({
            let displayed = displayed_time(counters(seen), rank, min, max);
            let time = if rank == 0 {
                seen[0]
            } else {
                seen[rank - 1]
            };
            &&& rank > seen.len() ==> displayed == 0
            &&& rank <= seen.len() && time < min ==> displayed == min
            &&& rank <= seen.len() && time >= min && time > max ==> displayed == max
            &&& rank <= seen.len() && min <= time <= max ==> displayed == time
        }),
{
    ranks_are_places_in_order(seen, rank);
}

/// Where no time was seen, zero is displayed.
pub proof fn nothing_seen_displays_zero(rank: nat, min: usize, max: usize)
    ensures
        displayed_time(Map::empty(), rank, min, max) == 0,
{
}

} // verus!
