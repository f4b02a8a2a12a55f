//! Metrics about requests: one for each request made, and their aggregate for each request name.

use crate::goose::{GooseMethod, StatusCode};
use crate::text::{text_equals, text_lt, text_order_is_total, text_precedes};
use crate::times::{
    count_all, count_of, counters, counters_count_what_was_seen, is_short_bucket,
    lemma_few_short_buckets, lemma_multiple_is_nearest, lemma_nearest_monotone, max_time,
    merged_counters_count_both, nearest, one_more, round_to, saturated, sum_of, times_fit,
    times_merged,
};
use std::cmp::Ordering;
use std::collections::{BTreeMap, HashMap};
use vstd::prelude::*;

verus! {

broadcast use {vstd::std_specs::btree::group_btree_axioms, vstd::laws_cmp::group_laws_cmp};

/// For tracking and counting requests made during a load test.
#[derive(Debug, Clone)]
pub struct GooseRequestMetric {
    /// How many milliseconds the load test has been running.
    pub elapsed: u64,
    /// The method being used (ie, Get, Post, etc).
    pub method: GooseMethod,
    /// The optional name of the request.
    pub name: String,
    /// The full URL that was requested.
    pub url: String,
    /// The final full URL that was requested, after redirects.
    pub final_url: String,
    /// Whether or not the request was redirected.
    pub redirected: bool,
    /// How many milliseconds the request took.
    pub response_time: u64,
    /// The HTTP response code (optional).
    pub status_code: u16,
    /// Whether or not the request was successful.
    pub success: bool,
    /// Whether or not we're updating a previous request, modifies how it is recorded.
    pub update: bool,
    /// Which user thread processed the request.
    pub user: usize,
    /// The optional error caused by this request.
    pub error: String,
}

/// What a `GooseRequestMetric` says.
#[verifier::ext_equal]
pub struct RequestModel {
    pub elapsed: u64,
    pub method: GooseMethod,
    pub name: Seq<char>,
    pub url: Seq<char>,
    pub final_url: Seq<char>,
    pub redirected: bool,
    pub response_time: u64,
    pub status_code: u16,
    pub success: bool,
    pub update: bool,
    pub user: usize,
    pub error: Seq<char>,
}

impl View for GooseRequestMetric {
    type V = RequestModel;

    open spec fn view(&self) -> RequestModel {
        RequestModel {
            elapsed: self.elapsed,
            method: self.method,
            name: self.name@,
            url: self.url@,
            final_url: self.final_url@,
            redirected: self.redirected,
            response_time: self.response_time,
            status_code: self.status_code,
            success: self.success,
            update: self.update,
            user: self.user,
            error: self.error@,
        }
    }
}

impl GooseRequestMetric {
    /// The metric of a request that is about to be made.
    pub fn new(method: GooseMethod, name: &str, url: &str, elapsed: u128, user: usize) -> (r: Self)
        ensures
            r@ == (RequestModel {
                elapsed: elapsed as u64,
                method,
                name: name@,
                url: url@,
                final_url: Seq::empty(),
                redirected: false,
                response_time: 0,
                status_code: 0,
                success: true,
                update: false,
                user,
                error: Seq::empty(),
            }),
    {
        GooseRequestMetric {
            elapsed: #[verifier::truncate]
            (elapsed as u64),
            method,
            name: name.to_string(),
            url: url.to_string(),
            final_url: String::new(),
            redirected: false,
            response_time: 0,
            status_code: 0,
            success: true,
            update: false,
            user,
            error: String::new(),
        }
    }

    /// Records the final URL returned.
    pub fn set_final_url(&mut self, final_url: &str)
        ensures
            final(self)@ == (RequestModel {
                final_url: final_url@,
                redirected: old(self)@.redirected || final_url@ != old(self)@.url,
                ..old(self)@
            }),
    {
        self.final_url = final_url.to_string();
        if !text_equals(self.final_url.as_str(), self.url.as_str()) {
            self.redirected = true;
        }
    }

    /// Records how long the response took.
    pub fn set_response_time(&mut self, response_time: u128)
        ensures
            final(self)@ == (RequestModel { response_time: response_time as u64, ..old(self)@ }),
    {
        self.response_time = #[verifier::truncate]
        (response_time as u64);
    }

    /// Records the returned status code; zero stands for none.
    pub fn set_status_code(&mut self, status_code: Option<StatusCode>)
        ensures
            final(self)@ == (RequestModel {
                status_code: match status_code {
                    Some(status_code) => status_code@,
                    None => 0,
                },
                ..old(self)@
            }),
    {
        self.status_code = match status_code {
            Some(status_code) => status_code.as_u16(),
            None => 0,
        };
    }
}

/// Metrics collected about a path-method pair, (for example `/index`-`GET`).
#[derive(Debug, Clone, Eq, PartialEq)]
pub struct GooseRequestAggregateMetric {
    /// The path for which metrics are being collected.
    pub path: String,
    /// The method for which metrics are being collected.
    pub method: GooseMethod,
    /// Per-response-time counters, tracking how often pages are returned with this response time.
    pub response_times: BTreeMap<usize, usize>,
    /// The shortest response time seen so far.
    pub min_response_time: usize,
    /// The longest response time seen so far.
    pub max_response_time: usize,
    /// Total combined response times seen so far.
    pub total_response_time: usize,
    /// Total number of response times seen so far.
    pub response_time_counter: usize,
    /// Per-status-code counters, tracking how often each response code was returned for this request.
    pub status_code_counts: HashMap<u16, usize>,
    /// Total number of times this path-method request resulted in a successful (2xx) status code.
    pub success_count: usize,
    /// Total number of times this path-method request resulted in a non-successful (non-2xx) status code.
    pub fail_count: usize,
    /// Load test hash.
    pub load_test_hash: u64,
}

/// What a `GooseRequestAggregateMetric` says.
#[verifier::ext_equal]
pub struct RequestAggregateModel {
    pub path: Seq<char>,
    pub method: GooseMethod,
    pub response_times: Map<usize, usize>,
    pub min_response_time: int,
    pub max_response_time: int,
    pub total_response_time: int,
    pub response_time_counter: int,
    pub status_code_counts: Map<u16, usize>,
    pub success_count: int,
    pub fail_count: int,
    pub load_test_hash: u64,
}

/// The counter under which a response time is counted: the time itself below 100 ms, then the
/// nearest ten below 500 ms, the nearest hundred below 1000 ms, and the nearest thousand.
pub open spec fn response_bucket(response_time: u64) -> usize {
    if response_time < 100 {
        response_time as usize
    } else if response_time < 500 {
        saturated(nearest(response_time as nat, 10))
    } else if response_time < 1000 {
        saturated(nearest(response_time as nat, 100))
    } else {
        saturated(nearest(response_time as nat, 1000))
    }
}

/// How often a status code was returned.
pub open spec fn code_count(counts: Map<u16, usize>, code: u16) -> nat {
    if counts.contains_key(code) {
        counts[code] as nat
    } else {
        0
    }
}

impl RequestAggregateModel {
    /// The aggregate of no request.
    pub open spec fn empty(path: Seq<char>, method: GooseMethod, load_test_hash: u64) -> Self {
        RequestAggregateModel {
            path,
            method,
            response_times: Map::empty(),
            min_response_time: 0,
            max_response_time: 0,
            total_response_time: 0,
            response_time_counter: 0,
            status_code_counts: Map::empty(),
            success_count: 0,
            fail_count: 0,
            load_test_hash,
        }
    }

    /// The counters have room for one more response time.
    pub open spec fn has_room_for_time(self, response_time: u64) -> bool {
        &&& self.total_response_time + (response_time as usize) <= usize::MAX
        &&& self.response_time_counter < usize::MAX
        &&& count_of(self.response_times, response_bucket(response_time)) < usize::MAX
    }

    /// The aggregate after one more response time.
    pub open spec fn with_response_time(self, response_time: u64) -> Self {
        let time = response_time as usize;
        let bucket = response_bucket(response_time);
        RequestAggregateModel {
            response_times: one_more(self.response_times, bucket),
            min_response_time: if self.response_time_counter == 0 || time
                < self.min_response_time {
                time as int
            } else {
                self.min_response_time
            },
            max_response_time: max_time(self.max_response_time, time as int),
            total_response_time: self.total_response_time + time,
            response_time_counter: self.response_time_counter + 1,
            ..self
        }
    }

    /// The aggregate after one more status code.
    pub open spec fn with_status_code(self, status_code: u16) -> Self {
        RequestAggregateModel {
            status_code_counts: self.status_code_counts.insert(
                status_code,
                (code_count(self.status_code_counts, status_code) + 1) as usize,
            ),
            ..self
        }
    }
}

impl View for GooseRequestAggregateMetric {
    type V = RequestAggregateModel;

    open spec fn view(&self) -> RequestAggregateModel {
        RequestAggregateModel {
            path: self.path@,
            method: self.method,
            response_times: self.response_times@,
            min_response_time: self.min_response_time as int,
            max_response_time: self.max_response_time as int,
            total_response_time: self.total_response_time as int,
            response_time_counter: self.response_time_counter as int,
            status_code_counts: self.status_code_counts@,
            success_count: self.success_count as int,
            fail_count: self.fail_count as int,
            load_test_hash: self.load_test_hash,
        }
    }
}

/// Rounds a response time so that similar times are counted together.
pub(crate) fn rounded_response_time(response_time: u64) -> (r: usize)
    ensures
        r == response_bucket(response_time),
{
    // No rounding for 1-100ms response times.
    if response_time < 100 {
        response_time as usize
    }
    // Round to nearest 10 for 100-500ms response times.
    else if response_time < 500 {
        round_to(response_time, 10)
    }
    // Round to nearest 100 for 500-1000ms response times.
    else if response_time < 1000 {
        round_to(response_time, 100)
    }
    // Round to nearest 1000 for all larger response times.
    else {
        round_to(response_time, 1000)
    }
}

impl GooseRequestAggregateMetric {
    /// Create a new GooseRequestAggregateMetric object.
    pub fn new(path: &str, method: GooseMethod, load_test_hash: u64) -> (r: Self)
        ensures
            r@ == RequestAggregateModel::empty(path@, method, load_test_hash),
    {
        GooseRequestAggregateMetric {
            path: path.to_string(),
            method,
            response_times: BTreeMap::new(),
            min_response_time: 0,
            max_response_time: 0,
            total_response_time: 0,
            response_time_counter: 0,
            status_code_counts: HashMap::new(),
            success_count: 0,
            fail_count: 0,
            load_test_hash,
        }
    }

    /// Track response time.
    pub fn set_response_time(&mut self, response_time: u64)
        requires
            old(self)@.has_room_for_time(response_time),
        ensures
            final(self)@ == old(self)@.with_response_time(response_time),
    {
        // Perform this conversion only once, then re-use throughout this function.
        let response_time_usize: usize = #[verifier::truncate]
        (response_time as usize);

        // Update minimum if this one is fastest yet.
        if self.response_time_counter == 0 || response_time_usize < self.min_response_time {
            self.min_response_time = response_time_usize;
        }

        // Update maximum if this one is slowest yet.
        if response_time_usize > self.max_response_time {
            self.max_response_time = response_time_usize;
        }

        // Update total_response time, adding in this one.
        self.total_response_time += response_time_usize;

        // Each time we store a new response time, increment counter by one.
        self.response_time_counter += 1;

        // Round the response time so we can combine similar times together and
        // minimize required memory to store and push upstream to the parent.
        let rounded: usize = rounded_response_time(response_time);
        let counter: usize = match self.response_times.get(&rounded) {
            // We've seen this response_time before, increment counter.
            Some(c) => *c + 1,
            // First time we've seen this response time, initialize counter.
            None => 1,
        };
        self.response_times.insert(rounded, counter);
    }

    /// Increment counter for status code, creating new counter if first time seeing status code.
    pub fn set_status_code(&mut self, status_code: u16)
        requires
            code_count(old(self)@.status_code_counts, status_code) < usize::MAX,
        ensures
            final(self)@ == old(self)@.with_status_code(status_code),
    {
        let counter: usize = match self.status_code_counts.get(&status_code) {
            // We've seen this status code before, increment counter.
            Some(c) => *c + 1,
            // First time we've seen this status code, initialize counter.
            None => 1,
        };
        self.status_code_counts.insert(status_code, counter);
    }
}

/// The order of request aggregates: by method, then by path.
pub open spec fn aggregate_order(a: RequestAggregateModel, b: RequestAggregateModel) -> Ordering {
    if a.method.rank() < b.method.rank() {
        Ordering::Less
    } else if a.method.rank() > b.method.rank() {
        Ordering::Greater
    } else if text_lt(a.path, b.path) {
        Ordering::Less
    } else if text_lt(b.path, a.path) {
        Ordering::Greater
    } else {
        Ordering::Equal
    }
}

impl GooseRequestAggregateMetric {
    /// Compares two aggregates by method, then by path.
    pub fn cmp(&self, other: &Self) -> (r: Ordering)
        ensures
            r == aggregate_order(self@, other@),
    {
        let (mine, theirs): (u8, u8) = (self.method.place(), other.method.place());
        if mine < theirs {
            Ordering::Less
        } else if mine > theirs {
            Ordering::Greater
        } else if text_precedes(self.path.as_str(), other.path.as_str()) {
            Ordering::Less
        } else if text_precedes(other.path.as_str(), self.path.as_str()) {
            Ordering::Greater
        } else {
            Ordering::Equal
        }
    }
}

/// Implement partial-ordering for GooseRequestAggregateMetric.
impl PartialOrd for GooseRequestAggregateMetric {
    fn partial_cmp(&self, other: &Self) -> (r: Option<Ordering>) {
        Some(self.cmp(other))
    }
}

impl vstd::std_specs::cmp::PartialOrdSpecImpl for GooseRequestAggregateMetric {
    open spec fn obeys_partial_cmp_spec() -> bool {
        true
    }

    open spec fn partial_cmp_spec(&self, other: &Self) -> Option<Ordering> {
        Some(aggregate_order(self@, other@))
    }
}

/// Aggregates are totally ordered by method and path: the order is antisymmetric up to equal
/// method and path, and transitive.
pub proof fn aggregate_order_is_total(
    a: RequestAggregateModel,
    b: RequestAggregateModel,
    c: RequestAggregateModel,
)
    ensures
        aggregate_order(a, b) is Equal <==> a.method == b.method && a.path == b.path,
        aggregate_order(a, b) is Less <==> aggregate_order(b, a) is Greater,
        aggregate_order(a, b) is Less && aggregate_order(b, c) is Less ==> aggregate_order(
            a,
            c,
        ) is Less,
{
    text_order_is_total(a.path, b.path, c.path);
    text_order_is_total(b.path, a.path, a.path);
}

/// A response time is counted near itself: exactly below 100 ms, and else within half of the unit
/// to which it is rounded, which is ten below 500 ms, a hundred below 1000 ms, and a thousand.
pub proof fn response_buckets_are_near(response_time: u64)
    requires
        response_time <= usize::MAX,
    ensures
        ({
            let bucket = response_bucket(response_time);
            &&& response_time < 100 ==> bucket == response_time
            &&& 100 <= response_time < 500 ==> bucket % 10 == 0 && bucket - 5 <= response_time
                < bucket + 5
            &&& 500 <= response_time < 1000 ==> bucket % 100 == 0 && bucket - 50 <= response_time
                < bucket + 50
            &&& 1000 <= response_time ==> (bucket % 1000 == 0 || bucket == usize::MAX) && bucket
                - 500 <= response_time < bucket + 500
        }),
{
}

proof fn lemma_bucket_range(response_time: u64)
    requires
        response_time <= usize::MAX,
    ensures
        100 <= response_time < 500 ==> 100 <= response_bucket(response_time) <= 500,
        500 <= response_time < 1000 ==> 500 <= response_bucket(response_time) <= 1000,
        1000 <= response_time ==> 1000 <= response_bucket(response_time),
{
}

/// A longer response time is not counted as a shorter one.
pub proof fn response_buckets_are_monotone(fast: u64, slow: u64)
    requires
        fast <= slow <= usize::MAX,
    ensures
        response_bucket(fast) <= response_bucket(slow),
{
    lemma_bucket_range(fast);
    lemma_bucket_range(slow);
    if 100 <= fast && slow < 500 {
        lemma_nearest_monotone(fast as nat, slow as nat, 10);
    } else if 500 <= fast && slow < 1000 {
        lemma_nearest_monotone(fast as nat, slow as nat, 100);
    } else if 1000 <= fast {
        lemma_nearest_monotone(fast as nat, slow as nat, 1000);
    }
}

/// A response time that equals one under which times are counted is counted there.
pub proof fn response_buckets_are_fixed(response_time: u64)
    requires
        response_time <= usize::MAX,
    ensures
        response_bucket(response_bucket(response_time) as u64) == response_bucket(response_time),
{
    lemma_bucket_range(response_time);
    let bucket = response_bucket(response_time);
    let time = response_time as nat;
    if 100 <= response_time < 500 {
        lemma_multiple_is_nearest((time + 5) / 10, 10);
    } else if 500 <= response_time < 1000 {
        lemma_multiple_is_nearest((time + 50) / 100, 100);
    } else if 1000 <= response_time {
        lemma_multiple_is_nearest((time + 500) / 1000, 1000);
        if nearest(time, 1000) > usize::MAX {
            lemma_nearest_monotone(time, usize::MAX as nat, 1000);
        }
    }
}

impl RequestAggregateModel {
    /// The aggregate after several response times.
    pub open spec fn with_response_times(self, times: Seq<u64>) -> Self
        decreases times.len(),
    {
        if times.len() == 0 {
            self
        } else {
            self.with_response_times(times.drop_last()).with_response_time(times.last())
        }
    }
}

/// The times under which response times are counted.
pub open spec fn response_buckets(times: Seq<u64>) -> Seq<usize> {
    times.map_values(|time: u64| response_bucket(time))
}

proof fn lemma_response_counters(
    path: Seq<char>,
    method: GooseMethod,
    load_test_hash: u64,
    times: Seq<u64>,
)
    ensures
        RequestAggregateModel::empty(path, method, load_test_hash).with_response_times(
            times,
        ).response_times == counters(response_buckets(times)),
    decreases times.len(),
{
    if times.len() > 0 {
        lemma_response_counters(path, method, load_test_hash, times.drop_last());
        assert(response_buckets(times).drop_last() =~= response_buckets(times.drop_last()));
    }
}

/// An aggregate counts how many response times it tracked, each of them under one time, adds them
/// up, and knows the shortest and the longest one.
pub proof fn tracked_times_are_summed_up(
    path: Seq<char>,
    method: GooseMethod,
    load_test_hash: u64,
    times: Seq<u64>,
)
    requires
        times.len() <= usize::MAX,
        forall|i: int| 0 <= i < times.len() ==> #[trigger] times[i] <= usize::MAX,
    ensures
        ({
            let aggregate = RequestAggregateModel::empty(
                path,
                method,
                load_test_hash,
            ).with_response_times(times);
            &&& aggregate.response_time_counter == times.len()
            &&& aggregate.response_times == counters(response_buckets(times))
            &&& count_all(aggregate.response_times) == times.len()
            &&& aggregate.total_response_time == sum_of(times)
            &&& forall|i: int|
                0 <= i < times.len() ==> #[trigger] times[i] <= aggregate.max_response_time
            &&& times.len() > 0 ==> exists|i: int|
                0 <= i < times.len() && #[trigger] times[i] == aggregate.max_response_time
            &&& forall|i: int|
                0 <= i < times.len() ==> aggregate.min_response_time <= #[trigger] times[i]
            &&& times.len() > 0 ==> exists|i: int|
                0 <= i < times.len() && #[trigger] times[i] == aggregate.min_response_time
            &&& aggregate.path == path
            &&& aggregate.method == method
            &&& aggregate.load_test_hash == load_test_hash
        }),
    decreases times.len(),
{
    lemma_response_counters(path, method, load_test_hash, times);
    counters_count_what_was_seen(response_buckets(times), 0);
    if times.len() > 0 {
        let rest = times.drop_last();
        let empty = RequestAggregateModel::empty(path, method, load_test_hash);
        let before = empty.with_response_times(rest);
        let after = empty.with_response_times(times);
        assert forall|i: int| 0 <= i < rest.len() implies #[trigger] rest[i] <= usize::MAX by {
            assert(times[i] <= usize::MAX);
        }
        tracked_times_are_summed_up(path, method, load_test_hash, rest);
        assert(times[times.len() - 1] == times.last());
        assert forall|i: int| 0 <= i < times.len() implies after.min_response_time
            <= #[trigger] times[i] <= after.max_response_time by {
            if i < rest.len() {
                assert(rest[i] == times[i]);
            }
        }
        if before.max_response_time == after.max_response_time && rest.len() > 0 {
            let i = choose|i: int|
                0 <= i < rest.len() && #[trigger] rest[i] == before.max_response_time;
            assert(times[i] == after.max_response_time);
        } else {
            assert(times[times.len() - 1] == after.max_response_time);
        }
        if before.min_response_time == after.min_response_time && rest.len() > 0 {
            let i = choose|i: int|
                0 <= i < rest.len() && #[trigger] rest[i] == before.min_response_time;
            assert(times[i] == after.min_response_time);
        } else {
            assert(times[times.len() - 1] == after.min_response_time);
        }
    }
}

proof fn lemma_swap_times(aggregate: RequestAggregateModel, a: u64, b: u64)
    requires
        aggregate.response_time_counter >= 0,
    ensures
        aggregate.with_response_time(a).with_response_time(b) == aggregate.with_response_time(
            b,
        ).with_response_time(a),
{
    assert(aggregate.with_response_time(a).with_response_time(b)
        =~= aggregate.with_response_time(b).with_response_time(a));
}

proof fn lemma_times_counted(aggregate: RequestAggregateModel, times: Seq<u64>)
    ensures
        aggregate.with_response_times(times).response_time_counter
            == aggregate.response_time_counter + times.len(),
    decreases times.len(),
{
    if times.len() > 0 {
        lemma_times_counted(aggregate, times.drop_last());
    }
}

proof fn lemma_time_to_end(aggregate: RequestAggregateModel, times: Seq<u64>, i: int)
    requires
        aggregate.response_time_counter >= 0,
        0 <= i < times.len(),
    ensures
        aggregate.with_response_times(times) == aggregate.with_response_times(
            times.remove(i),
        ).with_response_time(times[i]),
    decreases times.len(),
{
    let (rest, last) = (times.drop_last(), times.last());
    if i == times.len() - 1 {
        assert(times.remove(i) =~= rest);
    } else {
        lemma_time_to_end(aggregate, rest, i);
        assert(times.remove(i).drop_last() =~= rest.remove(i));
        lemma_times_counted(aggregate, rest.remove(i));
        lemma_swap_times(aggregate.with_response_times(rest.remove(i)), times[i], last);
    }
}

/// It does not matter in which order response times are tracked.
pub proof fn tracked_in_any_order(aggregate: RequestAggregateModel, xs: Seq<u64>, ys: Seq<u64>)
    requires
        aggregate.response_time_counter >= 0,
        xs.to_multiset() == ys.to_multiset(),
    ensures
        aggregate.with_response_times(xs) == aggregate.with_response_times(ys),
    decreases ys.len(),
{
    broadcast use vstd::seq_lib::group_to_multiset_ensures;
    broadcast use vstd::multiset::group_multiset_axioms;

    xs.to_multiset_ensures();
    ys.to_multiset_ensures();
    if ys.len() > 0 {
        let last = ys.last();
        assert(ys.contains(last));
        assert(xs.to_multiset().count(last) > 0);
        assert(xs.contains(last));
        let i = xs.index_of(last);
        assert(xs[i] == last);
        assert(ys.remove(ys.len() - 1) =~= ys.drop_last());
        assert(xs.remove(i).to_multiset() == ys.drop_last().to_multiset());
        tracked_in_any_order(aggregate, xs.remove(i), ys.drop_last());
        lemma_time_to_end(aggregate, xs, i);
    }
}

/// Merging the counters of two aggregates gives the counters of one aggregate that tracked the
/// response times of both.
pub proof fn merged_aggregates_count_both(
    path: Seq<char>,
    method: GooseMethod,
    load_test_hash: u64,
    xs: Seq<u64>,
    ys: Seq<u64>,
)
    requires
        xs.len() + ys.len() <= usize::MAX,
    ensures
        ({
            let empty = RequestAggregateModel::empty(path, method, load_test_hash);
            let (a, b) = (empty.with_response_times(xs), empty.with_response_times(ys));
            &&& times_fit(a.response_times, b.response_times)
            &&& times_merged(a.response_times, b.response_times) == empty.with_response_times(
                xs + ys,
            ).response_times
        }),
{
    lemma_response_counters(path, method, load_test_hash, xs);
    lemma_response_counters(path, method, load_test_hash, ys);
    lemma_response_counters(path, method, load_test_hash, xs + ys);
    assert(response_buckets(xs + ys) =~= response_buckets(xs) + response_buckets(ys));
    merged_counters_count_both(response_buckets(xs), response_buckets(ys));
}

/// However many response times below 1000 ms are tracked, they fill few counters: at most 146, each
/// of them for a time below 100 ms, a multiple of ten up to 500 ms or a multiple of a hundred up to
/// 1000 ms.
pub proof fn short_times_fill_few_counters(
    path: Seq<char>,
    method: GooseMethod,
    load_test_hash: u64,
    times: Seq<u64>,
)
    requires
        forall|i: int| 0 <= i < times.len() ==> #[trigger] times[i] < 1000,
    ensures
        ({
            let counted = RequestAggregateModel::empty(
                path,
                method,
                load_test_hash,
            ).with_response_times(times).response_times;
            &&& counted.dom().finite()
            &&& counted.len() <= 146
            &&& forall|time: usize| #[trigger] counted.contains_key(time) ==> is_short_bucket(time)
        }),
{
    lemma_short_times(path, method, load_test_hash, times);
    let counted = RequestAggregateModel::empty(path, method, load_test_hash).with_response_times(
        times,
    ).response_times;
    assert forall|time: usize| #[trigger] counted.dom().contains(time) implies is_short_bucket(
        time,
    ) by {
        assert(counted.contains_key(time));
    }
    lemma_few_short_buckets(counted.dom());
}

proof fn lemma_short_times(
    path: Seq<char>,
    method: GooseMethod,
    load_test_hash: u64,
    times: Seq<u64>,
)
    requires
        forall|i: int| 0 <= i < times.len() ==> #[trigger] times[i] < 1000,
    ensures
        forall|time: usize| #[trigger]
            RequestAggregateModel::empty(path, method, load_test_hash).with_response_times(
                times,
            ).response_times.contains_key(time) ==> is_short_bucket(time),
    decreases times.len(),
{
    if times.len() > 0 {
        let rest = times.drop_last();
        assert forall|i: int| 0 <= i < rest.len() implies #[trigger] rest[i] < 1000 by {
            assert(times[i] < 1000);
        }
        lemma_short_times(path, method, load_test_hash, rest);
        assert(times[times.len() - 1] == times.last());
        lemma_bucket_range(times.last());
        response_buckets_are_near(times.last());
    }
}

/// Methods are ordered by their letters, and aggregates of one method by their paths.
pub proof fn aggregates_are_ordered_by_letters(a: RequestAggregateModel, b: RequestAggregateModel)
    ensures
        ({
            let (x, y) = (a.method.text(), b.method.text());
            if a.method == b.method {
                aggregate_order(a, b) is Less <==> text_lt(a.path, b.path)
            } else {
                aggregate_order(a, b) is Less <==> x[0] < y[0] || (x[0] == y[0] && x[1] < y[1])
            }
        }),
{
    reveal_strlit("DELETE");
    reveal_strlit("GET");
    reveal_strlit("HEAD");
    reveal_strlit("PATCH");
    reveal_strlit("POST");
    reveal_strlit("PUT");
}

/// An aggregate of no request has counted nothing, and knows its path, method and load test.
pub proof fn fresh_aggregates_count_nothing(
    path: Seq<char>,
    method: GooseMethod,
    load_test_hash: u64,
)
    ensures
        ({
            let fresh = RequestAggregateModel::empty(path, method, load_test_hash);
            &&& fresh.path == path && fresh.method == method && fresh.load_test_hash
                == load_test_hash
            &&& fresh.response_times.dom() == Set::<usize>::empty()
            &&& fresh.status_code_counts.dom() == Set::<u16>::empty()
            &&& fresh.min_response_time == 0 && fresh.max_response_time == 0
            &&& fresh.total_response_time == 0 && fresh.response_time_counter == 0
            &&& fresh.success_count == 0 && fresh.fail_count == 0
        }),
{
}

/// Tracking a response time leaves the successes, the failures and the status codes as they are;
/// tracking a status code leaves everything else as it is, and counts that code once more.
pub proof fn times_and_codes_are_tracked_apart(
    aggregate: RequestAggregateModel,
    response_time: u64,
    status_code: u16,
    other: u16,
)
    requires
        code_count(aggregate.status_code_counts, status_code) < usize::MAX,
    ensures
        ({
            let timed = aggregate.with_response_time(response_time);
            let coded = aggregate.with_status_code(status_code);
            &&& timed.success_count == aggregate.success_count
            &&& timed.fail_count == aggregate.fail_count
            &&& timed.status_code_counts == aggregate.status_code_counts
            &&& timed.path == aggregate.path && timed.method == aggregate.method
            &&& timed.load_test_hash == aggregate.load_test_hash
            &&& coded.success_count == aggregate.success_count
            &&& coded.fail_count == aggregate.fail_count
            &&& coded.response_times == aggregate.response_times
            &&& coded.min_response_time == aggregate.min_response_time
            &&& coded.max_response_time == aggregate.max_response_time
            &&& coded.total_response_time == aggregate.total_response_time
            &&& coded.response_time_counter == aggregate.response_time_counter
            &&& coded.path == aggregate.path && coded.method == aggregate.method
            &&& coded.load_test_hash == aggregate.load_test_hash
            &&& coded.status_code_counts.contains_key(status_code)
            &&& code_count(coded.status_code_counts, other) - code_count(
                aggregate.status_code_counts,
                other,
            ) == if other == status_code {
                1int
            } else {
                0
            }
        }),
{
}

} // verus!
