//! Counters of times: how often a time, in milliseconds, was seen.

use std::collections::BTreeMap;
use vstd::prelude::*;
use vstd::std_specs::btree::*;
use vstd::std_specs::cmp::OrdSpec;
use vstd::std_specs::iter::IteratorSpec;

verus! {

broadcast use {vstd::std_specs::btree::group_btree_axioms, vstd::laws_cmp::group_laws_cmp};

/// How often `time` was seen.
pub open spec fn count_of(times: Map<usize, usize>, time: usize) -> nat {
    if times.contains_key(time) {
        times[time] as nat
    } else {
        0
    }
}

/// How many of the counted times are at most `bound`.
pub open spec fn count_up_to(times: Map<usize, usize>, bound: int) -> nat
    decreases bound + 1,
{
    if bound < 0 {
        0
    } else {
        count_up_to(times, bound - 1) + count_of(times, bound as usize)
    }
}

/// How many times were counted in all.
pub open spec fn count_all(times: Map<usize, usize>) -> nat {
    count_up_to(times, usize::MAX as int)
}

/// All times together.
pub open spec fn sum_of(times: Seq<u64>) -> int
    decreases times.len(),
{
    if times.len() == 0 {
        0
    } else {
        sum_of(times.drop_last()) + times.last()
    }
}

/// `buckets` lists the entries of `times` by increasing time.
pub open spec fn lists_times(buckets: Seq<(usize, usize)>, times: Map<usize, usize>) -> bool {
    &&& forall|i: int, j: int| 0 <= i < j < buckets.len() ==> buckets[i].0 < buckets[j].0
    &&& forall|i: int|
        0 <= i < buckets.len() ==> #[trigger] times.contains_key(buckets[i].0)
            && times[buckets[i].0] == buckets[i].1
    &&& forall|time: usize| #[trigger]
        times.contains_key(time) ==> exists|i: int|
            0 <= i < buckets.len() && #[trigger] buckets[i].0 == time
}

/// The entries of `times`, by increasing time.
fn buckets(times: &BTreeMap<usize, usize>) -> (r: Vec<(usize, usize)>)
    ensures
        lists_times(r@, times@),
{
    let mut out: Vec<(usize, usize)> = Vec::new();
    let iter = times.iter();
    proof {
        lemma_iter_lists(times, iter.remaining());
    }
    for entry in it: iter
        invariant
            lists_times(it.seq().map_values(|kv: (&usize, &usize)| (*kv.0, *kv.1)), times@),
            out@ == it.seq().take(it.index()).map_values(|kv: (&usize, &usize)| (*kv.0, *kv.1)),
            it.index() == it.seq().len() ==> lists_times(out@, times@),
    {
        out.push((*entry.0, *entry.1));
        assert(it.index() + 1 == it.seq().len() ==> out@ =~= it.seq().map_values(
            |kv: (&usize, &usize)| (*kv.0, *kv.1),
        ));
    }
    out
}

proof fn lemma_iter_lists(times: &BTreeMap<usize, usize>, listed: Seq<(&usize, &usize)>)
    requires
        listed == spec_btree_map_iter(times).remaining(),
        increasing_seq(listed.map_values(|kv: (&usize, &usize)| *kv.0)),
    ensures
        lists_times(listed.map_values(|kv: (&usize, &usize)| (*kv.0, *kv.1)), times@),
{
    let pairs = listed.map_values(|kv: (&usize, &usize)| (*kv.0, *kv.1));
    let keys = listed.map_values(|kv: (&usize, &usize)| *kv.0);
    assert forall|i: int, j: int| 0 <= i < j < pairs.len() implies pairs[i].0 < pairs[j].0 by {
        assert(keys[i].cmp_spec(&keys[j]) is Less);
    }
    assert forall|i: int| 0 <= i < pairs.len() implies #[trigger] times@.contains_key(pairs[i].0)
        && times@[pairs[i].0] == pairs[i].1 by {
        assert(times@.contains_key(*listed[i].0));
    }
    assert forall|time: usize| #[trigger] times@.contains_key(time) implies exists|i: int|
        0 <= i < pairs.len() && #[trigger] pairs[i].0 == time by {
        let i = listed.index_of((&time, &times@[time]));
        assert(pairs[i].0 == time);
    }
}

/// `time` is counted, and at least `rank` of the counted times are at most `time`.
pub open spec fn reaches(times: Map<usize, usize>, rank: nat, time: usize) -> bool {
    times.contains_key(time) && count_up_to(times, time as int) >= rank
}

/// `time` is the least counted time that reaches `rank`.
pub open spec fn is_time_at_rank(times: Map<usize, usize>, rank: nat, time: usize) -> bool {
    &&& reaches(times, rank, time)
    &&& forall|other: usize| reaches(times, rank, other) ==> time <= other
}

/// The least counted time that reaches `rank`, if one does.
pub open spec fn time_at_rank(times: Map<usize, usize>, rank: nat) -> Option<usize> {
    if exists|time: usize| is_time_at_rank(times, rank, time) {
        Some(choose|time: usize| is_time_at_rank(times, rank, time))
    } else {
        None
    }
}

/// `time`, raised to `min` where it lies below, else lowered to `max` where it lies above.
pub open spec fn within(time: usize, min: usize, max: usize) -> usize {
    if time < min {
        min
    } else if time > max {
        max
    } else {
        time
    }
}

/// The time that stands for `rank` in a table: counted times are rounded, `min` and `max` are
/// not, so that the counted time is brought within them. Zero where no time reaches the rank.
pub open spec fn displayed_time(
    times: Map<usize, usize>,
    rank: nat,
    min: usize,
    max: usize,
) -> usize {
    match time_at_rank(times, rank) {
        Some(time) => within(time, min, max),
        None => 0,
    }
}

/// No time between `low` and `high` is counted, so none adds to the count.
proof fn lemma_count_over_gap(times: Map<usize, usize>, low: int, high: int)
    requires
        -1 <= low < high <= usize::MAX,
        forall|time: usize| low < time < high ==> !times.contains_key(time),
    ensures
        count_up_to(times, high) == count_up_to(times, low) + count_of(times, high as usize),
    decreases high - low,
{
    if high - 1 > low {
        lemma_count_over_gap(times, low, high - 1);
        assert(!times.contains_key((high - 1) as usize));
    }
}

proof fn lemma_least_reaching(times: Map<usize, usize>, rank: nat, time: usize)
    requires
        reaches(times, rank, time),
    ensures
        exists|least: usize| is_time_at_rank(times, rank, least),
    decreases time,
{
    if exists|other: usize| reaches(times, rank, other) && other < time {
        let other = choose|other: usize| reaches(times, rank, other) && other < time;
        lemma_least_reaching(times, rank, other);
    } else {
        assert(is_time_at_rank(times, rank, time));
    }
}

/// The time at `rank`, brought within `min` and `max`; zero where no time reaches the rank.
pub fn value_at_rank(times: &BTreeMap<usize, usize>, rank: usize, min: usize, max: usize) -> (r:
    usize)
    ensures
        r == displayed_time(times@, rank as nat, min, max),
{
    let listed = buckets(times);
    let mut total: usize = 0;
    let mut i: usize = 0;
    while i < listed.len()
        invariant
            i <= listed@.len(),
            lists_times(listed@, times@),
            total == if i == 0 {
                0
            } else {
                count_up_to(times@, listed@[i - 1].0 as int)
            },
            forall|j: int| 0 <= j < i ==> !reaches(times@, rank as nat, (#[trigger] listed@[j]).0),
        decreases listed@.len() - i,
    {
        let (value, counter): (usize, usize) = listed[i];
        proof {
            let low: int = if i == 0 {
                -1
            } else {
                listed@[i - 1].0 as int
            };
            assert forall|time: usize| low < time < value implies !times@.contains_key(time) by {
                if times@.contains_key(time) {
                    let j = choose|j: int|
                        0 <= j < listed@.len() && (#[trigger] listed@[j]).0 == time;
                    assert(j < i || j >= i);
                }
            }
            assert(times@.contains_key(listed@[i as int].0));
            lemma_count_over_gap(times@, low, value as int);
        }
        total = total.saturating_add(counter);
        if total >= rank {
            assert forall|other: usize| reaches(times@, rank as nat, other) implies value
                <= other by {
                let j = choose|j: int| 0 <= j < listed@.len() && (#[trigger] listed@[j]).0 == other;
                assert(j >= i);
            }
            assert(is_time_at_rank(times@, rank as nat, value));
            if value < min {
                return min;
            } else if value > max {
                return max;
            } else {
                return value;
            }
        }
        i += 1;
    }
    assert forall|time: usize| !is_time_at_rank(times@, rank as nat, time) by {
        if reaches(times@, rank as nat, time) {
            let j = choose|j: int| 0 <= j < listed@.len() && (#[trigger] listed@[j]).0 == time;
            assert(!reaches(times@, rank as nat, listed@[j].0));
        }
    }
    0
}

/// The rank of the middle one of `total` elements: half of them, rounded up.
pub open spec fn middle_rank(total: nat) -> nat {
    (total + 1) / 2
}

/// The median of `total_elements` counted times.
pub fn median(times: &BTreeMap<usize, usize>, total_elements: usize, min: usize, max: usize) -> (r:
    usize)
    ensures
        r == displayed_time(times@, middle_rank(total_elements as nat), min, max),
{
    value_at_rank(times, total_elements / 2 + total_elements % 2, min, max)
}

/// No time was counted so often in both that the two counters have no sum.
pub open spec fn times_fit(a: Map<usize, usize>, b: Map<usize, usize>) -> bool {
    forall|time: usize| #[trigger] count_of(a, time) + count_of(b, time) <= usize::MAX
}

/// The counters after `time` was seen once more.
pub open spec fn one_more(times: Map<usize, usize>, time: usize) -> Map<usize, usize> {
    times.insert(time, (count_of(times, time) + 1) as usize)
}

/// The counters of the times that were `seen`.
pub open spec fn counters(seen: Seq<usize>) -> Map<usize, usize>
    decreases seen.len(),
{
    if seen.len() == 0 {
        Map::empty()
    } else {
        one_more(counters(seen.drop_last()), seen.last())
    }
}

/// What was counted in `a` and in `b`, taken together.
pub open spec fn times_merged(a: Map<usize, usize>, b: Map<usize, usize>) -> Map<usize, usize> {
    Map::new(
        |time: usize| a.contains_key(time) || b.contains_key(time),
        |time: usize| (count_of(a, time) + count_of(b, time)) as usize,
    )
}

/// One of the first `n` buckets is that of `time`.
spec fn listed_before(listed: Seq<(usize, usize)>, n: int, time: usize) -> bool {
    exists|j: int| 0 <= j < n && (#[trigger] listed[j]).0 == time
}

/// Whether the counters of two sets of times can be merged without overflow.
pub fn can_merge_times(a: &BTreeMap<usize, usize>, b: &BTreeMap<usize, usize>) -> (r: bool)
    ensures
        r == times_fit(a@, b@),
{
    let listed = buckets(b);
    let mut i: usize = 0;
    while i < listed.len()
        invariant
            i <= listed@.len(),
            lists_times(listed@, b@),
            forall|j: int|
                0 <= j < i ==> count_of(a@, (#[trigger] listed@[j]).0) + listed@[j].1 <= usize::MAX,
        decreases listed@.len() - i,
    {
        let (time, counter): (usize, usize) = listed[i];
        assert(b@.contains_key(listed@[i as int].0));
        let present: usize = match a.get(&time) {
            Some(c) => *c,
            None => 0,
        };
        if counter > usize::MAX - present {
            assert(count_of(a@, time) + count_of(b@, time) > usize::MAX);
            return false;
        }
        i += 1;
    }
    assert forall|time: usize| #[trigger] count_of(a@, time) + count_of(b@, time)
        <= usize::MAX by {
        if b@.contains_key(time) {
            let j = choose|j: int| 0 <= j < listed@.len() && (#[trigger] listed@[j]).0 == time;
            assert(b@.contains_key(listed@[j].0));
        }
    }
    true
}

/// Merges together times: those of one thread or task into those seen so far.
pub fn merge_times(
    global_response_times: BTreeMap<usize, usize>,
    local_response_times: BTreeMap<usize, usize>,
) -> (r: BTreeMap<usize, usize>)
    requires
        times_fit(global_response_times@, local_response_times@),
    ensures
        r@ == times_merged(global_response_times@, local_response_times@),
{
    let ghost global = global_response_times@;
    let ghost local = local_response_times@;
    let mut merged = global_response_times;
    let listed = buckets(&local_response_times);
    let mut i: usize = 0;
    while i < listed.len()
        invariant
            i <= listed@.len(),
            lists_times(listed@, local),
            times_fit(global, local),
            forall|time: usize| #[trigger]
                merged@.contains_key(time) <==> global.contains_key(time) || listed_before(
                    listed@,
                    i as int,
                    time,
                ),
            forall|time: usize| #[trigger]
                merged@.contains_key(time) ==> merged@[time] == count_of(global, time)
                    + if listed_before(listed@, i as int, time) {
                    count_of(local, time)
                } else {
                    0
                },
        decreases listed@.len() - i,
    {
        let (response_time, count): (usize, usize) = listed[i];
        let ghost before = merged@;
        proof {
            assert(local.contains_key(listed@[i as int].0));
            assert(count_of(global, response_time) + count_of(local, response_time) <= usize::MAX);
            assert(!listed_before(listed@, i as int, response_time));
            assert(before.contains_key(response_time) <==> global.contains_key(response_time));
        }
        let counter: usize = match merged.get(&response_time) {
            Some(c) => *c + count,
            None => count,
        };
        merged.insert(response_time, counter);
        proof {
            assert forall|time: usize| listed_before(listed@, i + 1, time) <==> listed_before(
                listed@,
                i as int,
                time,
            ) || time == response_time by {
                if time == response_time {
                    assert(listed@[i as int].0 == time);
                }
                if listed_before(listed@, i as int, time) {
                    let j = choose|j: int| 0 <= j < i && (#[trigger] listed@[j]).0 == time;
                    assert(listed@[j].0 == time && 0 <= j < i + 1);
                }
            }
            assert forall|time: usize| #[trigger] merged@.contains_key(time) implies merged@[time]
                == count_of(global, time) + if listed_before(listed@, i + 1, time) {
                count_of(local, time)
            } else {
                0
            } by {
                if time != response_time {
                    assert(before.contains_key(time));
                }
            }
        }
        i += 1;
    }
    proof {
        assert forall|time: usize| listed_before(listed@, listed@.len() as int, time)
            == local.contains_key(time) by {
            if listed_before(listed@, listed@.len() as int, time) {
                let j = choose|j: int| 0 <= j < listed@.len() && (#[trigger] listed@[j]).0 == time;
                assert(local.contains_key(listed@[j].0));
            }
        }
        assert forall|time: usize| #[trigger] merged@.contains_key(time) implies merged@[time]
            == times_merged(global, local)[time] by {
            assert(count_of(global, time) + count_of(local, time) <= usize::MAX);
        }
        assert(merged@ =~= times_merged(global, local));
    }
    merged
}

/// The lesser of two minima; zero stands for a minimum that was never set.
pub open spec fn min_time(global_min: int, min: int) -> int {
    if global_min == 0 || (0 < min < global_min) {
        min
    } else {
        global_min
    }
}

/// The greater of two maxima.
pub open spec fn max_time(global_max: int, max: int) -> int {
    if global_max < max {
        max
    } else {
        global_max
    }
}

/// Updates the global minimum time based on a local one.
pub fn update_min_time(global_min: usize, min: usize) -> (r: usize)
    ensures
        r == min_time(global_min as int, min as int),
{
    if global_min == 0 || (min > 0 && min < global_min) {
        min
    } else {
        global_min
    }
}

/// Updates the global maximum time based on a local one.
pub fn update_max_time(global_max: usize, max: usize) -> (r: usize)
    ensures
        r == max_time(global_max as int, max as int),
{
    if global_max < max {
        max
    } else {
        global_max
    }
}

/// The nearest number that a `usize` holds.
pub open spec fn saturated(n: nat) -> usize {
    if n > usize::MAX {
        usize::MAX
    } else {
        n as usize
    }
}

/// The multiple of `unit` nearest to `time`; of two that are equally near, the greater one.
pub open spec fn nearest(time: nat, unit: nat) -> nat {
    (time + unit / 2) / unit * unit
}

/// Rounds `time` to the nearest multiple of `unit`.
pub(crate) fn round_to(time: u64, unit: u64) -> (r: usize)
    requires
        0 < unit <= 1000,
    ensures
        r == saturated(nearest(time as nat, unit as nat)),
{
    let units: u128 = (time as u128 + (unit / 2) as u128) / unit as u128;
    assert(units <= time + 500) by (nonlinear_arith)
        requires
            unit > 0,
            unit <= 1000,
            units == (time + unit / 2) / (unit as int),
    ;
    assert(units * unit <= 0x1_0000_0000_0000_1000 * 1000) by (nonlinear_arith)
        requires
            units <= time + 500,
            unit <= 1000,
    ;
    let rounded: u128 = units * unit as u128;
    if rounded > usize::MAX as u128 {
        usize::MAX
    } else {
        rounded as usize
    }
}

pub(crate) proof fn lemma_nearest_monotone(fast: nat, slow: nat, unit: nat)
    requires
        fast <= slow,
        unit > 0,
    ensures
        nearest(fast, unit) <= nearest(slow, unit),
{
    let (a, b) = ((fast + unit / 2) / unit, (slow + unit / 2) / unit);
    vstd::arithmetic::div_mod::lemma_div_is_ordered(
        (fast + unit / 2) as int,
        (slow + unit / 2) as int,
        unit as int,
    );
    assert(a * unit <= b * unit) by (nonlinear_arith)
        requires
            a <= b,
    ;
}

pub(crate) proof fn lemma_multiple_is_nearest(count: nat, unit: nat)
    requires
        unit > 0,
    ensures
        nearest(count * unit, unit) == count * unit,
{
    let half = (unit / 2) as int;
    assert((count * unit + half) / unit as int == count) by {
        vstd::arithmetic::div_mod::lemma_fundamental_div_mod_converse(
            count * unit + half,
            unit as int,
            count as int,
            half,
        );
    }
}

proof fn lemma_count_monotone(times: Map<usize, usize>, low: int, high: int)
    requires
        low <= high,
    ensures
        count_up_to(times, low) <= count_up_to(times, high),
    decreases high - low,
{
    if low < high && high >= 0 {
        lemma_count_monotone(times, low, high - 1);
    }
}

/// The greatest counted time up to `bound` counts all of them.
proof fn lemma_greatest_counted(times: Map<usize, usize>, time: usize, bound: int) -> (greatest:
    usize)
    requires
        times.contains_key(time),
        time <= bound <= usize::MAX,
    ensures
        times.contains_key(greatest),
        count_up_to(times, greatest as int) == count_up_to(times, bound),
    decreases bound,
{
    if times.contains_key(bound as usize) {
        bound as usize
    } else {
        lemma_greatest_counted(times, time, bound - 1)
    }
}

/// One more of a time makes the count one greater from that time on.
pub(crate) proof fn lemma_count_one_more(times: Map<usize, usize>, time: usize, bound: int)
    requires
        bound <= usize::MAX,
        count_of(times, time) < usize::MAX,
    ensures
        count_up_to(one_more(times, time), bound) == count_up_to(times, bound) + if time <= bound {
            1int
        } else {
            0
        },
    decreases bound + 1,
{
    if bound >= 0 {
        lemma_count_one_more(times, time, bound - 1);
    }
}

/// Nothing is counted where there is no counter.
pub(crate) proof fn lemma_count_nothing(bound: int)
    ensures
        count_up_to(Map::empty(), bound) == 0,
    decreases bound + 1,
{
    if bound >= 0 {
        lemma_count_nothing(bound - 1);
    }
}

/// A time stands at a rank exactly where times were counted, and as many as the rank says.
pub proof fn ranks_up_to_count_are_found(times: Map<usize, usize>, rank: nat)
    ensures
        time_at_rank(times, rank) is Some <==> times != Map::<usize, usize>::empty() && rank
            <= count_all(times),
{
    if exists|time: usize| is_time_at_rank(times, rank, time) {
        let time = choose|time: usize| is_time_at_rank(times, rank, time);
        lemma_count_monotone(times, time as int, usize::MAX as int);
        assert(times.contains_key(time));
    } else if times != Map::<usize, usize>::empty() && rank <= count_all(times) {
        if forall|time: usize| !times.contains_key(time) {
            assert(times =~= Map::<usize, usize>::empty());
        }
        let time = choose|time: usize| times.contains_key(time);
        let greatest = lemma_greatest_counted(times, time, usize::MAX as int);
        assert(reaches(times, rank, greatest));
        lemma_least_reaching(times, rank, greatest);
    }
}

/// The time at a rank is the least time that so many of the counted times do not exceed.
pub proof fn rank_is_least_reaching(times: Map<usize, usize>, rank: nat, other: usize)
    ensures
        time_at_rank(times, rank) matches Some(time) ==> reaches(times, rank, time),
        time_at_rank(times, rank) matches Some(time) ==> reaches(times, rank, other) ==> time
            <= other,
{
}

/// A greater rank has no lesser time.
pub proof fn ranks_are_monotone(times: Map<usize, usize>, low: nat, high: nat)
    requires
        low <= high,
    ensures
        time_at_rank(times, high) matches Some(slow) ==> time_at_rank(times, low) matches Some(fast)
            && fast <= slow,
{
    if exists|time: usize| is_time_at_rank(times, high, time) {
        let slow = choose|time: usize| is_time_at_rank(times, high, time);
        assert(reaches(times, low, slow));
        lemma_least_reaching(times, low, slow);
    }
}

/// What is displayed for a rank that is found lies between the given minimum and maximum, and a
/// greater rank displays no lesser time.
pub proof fn displayed_times_are_bounded(
    times: Map<usize, usize>,
    low: nat,
    high: nat,
    min: usize,
    max: usize,
)
    requires
        min <= max,
        low <= high,
        time_at_rank(times, high) is Some,
    ensures
        min <= displayed_time(times, low, min, max) <= displayed_time(times, high, min, max) <= max,
{
    ranks_are_monotone(times, low, high);
}

proof fn lemma_merged_count(a: Map<usize, usize>, b: Map<usize, usize>, bound: int)
    requires
        times_fit(a, b),
        bound <= usize::MAX,
    ensures
        count_up_to(times_merged(a, b), bound) == count_up_to(a, bound) + count_up_to(b, bound),
    decreases bound + 1,
{
    if bound >= 0 {
        lemma_merged_count(a, b, bound - 1);
        assert(count_of(a, bound as usize) + count_of(b, bound as usize) <= usize::MAX);
    }
}

/// Merging counts every time as often as both together, and nothing else.
pub proof fn merging_adds_counts(a: Map<usize, usize>, b: Map<usize, usize>, time: usize)
    requires
        times_fit(a, b),
    ensures
        count_of(times_merged(a, b), time) == count_of(a, time) + count_of(b, time),
        times_merged(a, b).contains_key(time) <==> a.contains_key(time) || b.contains_key(time),
        count_all(times_merged(a, b)) == count_all(a) + count_all(b),
{
    assert(count_of(a, time) + count_of(b, time) <= usize::MAX);
    lemma_merged_count(a, b, usize::MAX as int);
}

/// Merging nothing changes nothing.
pub proof fn merging_nothing(a: Map<usize, usize>)
    ensures
        times_merged(a, Map::empty()) == a,
        times_merged(Map::empty(), a) == a,
{
    assert(times_merged(a, Map::empty()) =~= a);
    assert(times_merged(Map::empty(), a) =~= a);
}

/// It does not matter which of two is merged into the other.
pub proof fn merging_is_commutative(a: Map<usize, usize>, b: Map<usize, usize>)
    requires
        times_fit(a, b),
    ensures
        times_fit(b, a),
        times_merged(a, b) == times_merged(b, a),
{
    assert forall|time: usize| #[trigger] count_of(b, time) + count_of(a, time) <= usize::MAX by {
        assert(count_of(a, time) + count_of(b, time) <= usize::MAX);
    }
    assert(times_merged(a, b) =~= times_merged(b, a));
}

/// It does not matter in which order three are merged.
pub proof fn merging_is_associative(a: Map<usize, usize>, b: Map<usize, usize>, c: Map<usize, usize>)
    requires
        times_fit(a, b),
        times_fit(times_merged(a, b), c),
    ensures
        times_fit(b, c),
        times_fit(a, times_merged(b, c)),
        times_merged(times_merged(a, b), c) == times_merged(a, times_merged(b, c)),
{
    let (ab, bc) = (times_merged(a, b), times_merged(b, c));
    assert forall|time: usize|
        count_of(a, time) + count_of(b, time) + count_of(c, time) <= usize::MAX && count_of(ab, time)
            == #[trigger] count_of(a, time) + count_of(b, time) && count_of(bc, time) == count_of(
            b,
            time,
        ) + count_of(c, time) by {
        assert(count_of(a, time) + count_of(b, time) <= usize::MAX);
        assert(count_of(ab, time) + count_of(c, time) <= usize::MAX);
    }
    assert forall|time: usize| #[trigger] count_of(b, time) + count_of(c, time) <= usize::MAX by {
        assert(count_of(a, time) + count_of(b, time) + count_of(c, time) <= usize::MAX);
    }
    assert forall|time: usize| #[trigger] count_of(a, time) + count_of(bc, time) <= usize::MAX by {
        assert(count_of(a, time) + count_of(b, time) + count_of(c, time) <= usize::MAX);
    }
    let (left, right) = (times_merged(ab, c), times_merged(a, bc));
    assert forall|time: usize| #[trigger] left.contains_key(time) implies left[time]
        == right[time] by {
        assert(count_of(a, time) + count_of(b, time) + count_of(c, time) <= usize::MAX);
    }
    assert(left =~= right);
}

/// The maximum of two is the greater one, whichever comes first; the minimum is the lesser one of
/// those that were set, whichever comes first.
pub proof fn extremes_in_any_order(a: int, b: int, c: int)
    requires
        a >= 0,
        b >= 0,
        c >= 0,
    ensures
        max_time(a, b) >= a && max_time(a, b) >= b,
        max_time(a, b) == a || max_time(a, b) == b,
        max_time(a, b) == max_time(b, a),
        max_time(max_time(a, b), c) == max_time(a, max_time(b, c)),
        min_time(a, b) == 0 <==> a == 0 && b == 0,
        a > 0 ==> min_time(a, b) <= a,
        b > 0 ==> min_time(a, b) <= b,
        min_time(a, b) == a || min_time(a, b) == b,
        min_time(a, b) == min_time(b, a),
        min_time(min_time(a, b), c) == min_time(a, min_time(b, c)),
{
}

/// A time has a counter exactly where it was seen, the counter says how often it was seen, and all
/// counters together say how many times were seen.
pub proof fn counters_count_what_was_seen(seen: Seq<usize>, time: usize)
    requires
        seen.len() <= usize::MAX,
    ensures
        counters(seen).contains_key(time) <==> seen.contains(time),
        count_of(counters(seen), time) == seen.to_multiset().count(time),
        count_all(counters(seen)) == seen.len(),
    decreases seen.len(),
{
    broadcast use vstd::seq_lib::group_to_multiset_ensures;
    broadcast use vstd::multiset::group_multiset_axioms;

    if seen.len() == 0 {
        lemma_count_nothing(usize::MAX as int);
    } else {
        let (rest, last) = (seen.drop_last(), seen.last());
        counters_count_what_was_seen(rest, time);
        counters_count_what_was_seen(rest, last);
        assert(seen =~= rest.push(last));
        assert(rest.to_multiset().count(last) <= rest.to_multiset().len());
        lemma_count_one_more(counters(rest), last, usize::MAX as int);
    }
}

/// Merging the counters of two lists of times gives the counters of both lists together.
pub proof fn merged_counters_count_both(xs: Seq<usize>, ys: Seq<usize>)
    requires
        xs.len() + ys.len() <= usize::MAX,
    ensures
        times_fit(counters(xs), counters(ys)),
        times_merged(counters(xs), counters(ys)) == counters(xs + ys),
{
    broadcast use vstd::multiset::group_multiset_axioms;

    let (a, b, both) = (counters(xs), counters(ys), counters(xs + ys));
    vstd::seq_lib::lemma_multiset_commutative(xs, ys);
    assert forall|time: usize|
        count_of(both, time) == #[trigger] count_of(a, time) + count_of(b, time) && count_of(
            both,
            time,
        ) <= usize::MAX && (both.contains_key(time) <==> a.contains_key(time) || b.contains_key(
            time,
        )) by {
        counters_count_what_was_seen(xs, time);
        counters_count_what_was_seen(ys, time);
        counters_count_what_was_seen(xs + ys, time);
        if xs.contains(time) {
            assert((xs + ys)[xs.index_of(time)] == time);
        }
        if ys.contains(time) {
            assert((xs + ys)[xs.len() + ys.index_of(time)] == time);
        }
    }
    assert forall|time: usize| #[trigger] times_merged(a, b).contains_key(time)
        <==> both.contains_key(time) by {
        assert(count_of(both, time) == count_of(a, time) + count_of(b, time));
    }
    assert forall|time: usize| #[trigger] both.contains_key(time) implies times_merged(a, b)[time]
        == both[time] by {
        assert(count_of(both, time) == count_of(a, time) + count_of(b, time));
    }
    assert(times_merged(a, b) =~= both);
}

/// A time under which times below 1000 ms are counted: any time below 100 ms, then a multiple of
/// ten up to 500 ms, then a multiple of a hundred.
pub open spec fn is_short_bucket(time: usize) -> bool {
    ||| time < 100
    ||| 100 <= time <= 500 && time % 10 == 0
    ||| 500 < time <= 1000 && time % 100 == 0
}

/// There are 146 times under which times below 1000 ms are counted.
pub(crate) proof fn lemma_few_short_buckets(times: Set<usize>)
    requires
        forall|time: usize| #[trigger] times.contains(time) ==> is_short_bucket(time),
    ensures
        times.finite(),
        times.len() <= 146,
{
    let nth = |i: int|
        if i < 100 {
            i as usize
        } else if i <= 140 {
            (10 * (i - 90)) as usize
        } else {
            (100 * (i - 135)) as usize
        };
    let places = vstd::set_lib::set_int_range(0, 146);
    let short = places.map(nth);
    vstd::set_lib::lemma_int_range(0, 146);
    vstd::set_lib::lemma_map_size_bound(places, short, nth);
    assert forall|time: usize| #[trigger] times.contains(time) implies short.contains(time) by {
        let i: int = if time < 100 {
            time as int
        } else if time <= 500 {
            time as int / 10 + 90
        } else {
            time as int / 100 + 135
        };
        assert(places.contains(i));
        assert(nth(i) == time);
    }
    vstd::set_lib::lemma_len_subset(times, short);
}

/// No counter is greater than all of them together.
pub(crate) proof fn lemma_count_at_most_all(times: Map<usize, usize>, time: usize)
    ensures
        count_of(times, time) <= count_all(times),
{
    lemma_count_monotone(times, time as int, usize::MAX as int);
}

} // verus!
