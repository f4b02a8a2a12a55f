//! Metrics about tasks: one for each time a task is run, and their aggregate for each task.

use crate::times::{
    count_all, count_of, counters, counters_count_what_was_seen, is_short_bucket,
    lemma_few_short_buckets, lemma_nearest_monotone, max_time, nearest, one_more, round_to,
    saturated, sum_of,
};
use std::collections::BTreeMap;
use vstd::prelude::*;

verus! {

broadcast use {vstd::std_specs::btree::group_btree_axioms, vstd::laws_cmp::group_laws_cmp};

/// The per-task metrics collected each time a task is invoked.
#[derive(Debug, Clone)]
pub struct GooseTaskMetric {
    /// How many milliseconds the load test has been running.
    pub elapsed: u64,
    /// An index into the task sets of the load test, indicating which task set this is.
    pub taskset_index: usize,
    /// An index into `GooseTaskSet.tasks`, indicating which task this is.
    pub task_index: usize,
    /// The optional name of the task.
    pub name: String,
    /// How long task ran.
    pub run_time: u64,
    /// Whether or not the request was successful.
    pub success: bool,
    /// Which user thread processed the request.
    pub user: usize,
}

/// What a `GooseTaskMetric` says.
#[verifier::ext_equal]
pub struct TaskModel {
    pub elapsed: u64,
    pub taskset_index: usize,
    pub task_index: usize,
    pub name: Seq<char>,
    pub run_time: u64,
    pub success: bool,
    pub user: usize,
}

impl View for GooseTaskMetric {
    type V = TaskModel;

    open spec fn view(&self) -> TaskModel {
        TaskModel {
            elapsed: self.elapsed,
            taskset_index: self.taskset_index,
            task_index: self.task_index,
            name: self.name@,
            run_time: self.run_time,
            success: self.success,
            user: self.user,
        }
    }
}

impl GooseTaskMetric {
    /// Create a new GooseTaskMetric metric.
    pub fn new(
        elapsed: u128,
        taskset_index: usize,
        task_index: usize,
        name: String,
        user: usize,
    ) -> (r: Self)
        ensures
            r@ == (TaskModel {
                elapsed: elapsed as u64,
                taskset_index,
                task_index,
                name: name@,
                run_time: 0,
                success: true,
                user,
            }),
    {
        GooseTaskMetric {
            elapsed: #[verifier::truncate]
            (elapsed as u64),
            taskset_index,
            task_index,
            name,
            run_time: 0,
            success: true,
            user,
        }
    }

    /// Update a GooseTaskMetric metric.
    pub fn set_time(&mut self, time: u128, success: bool)
        ensures
            final(self)@ == (TaskModel { run_time: time as u64, success, ..old(self)@ }),
    {
        self.run_time = #[verifier::truncate]
        (time as u64);
        self.success = success;
    }
}

/// Aggregated per-task metrics updated each time a task is invoked.
#[derive(Debug, Clone, Eq, PartialEq)]
pub struct GooseTaskAggregateMetric {
    /// An index into the task sets of the load test, indicating which task set this is.
    pub taskset_index: usize,
    /// The task set name.
    pub taskset_name: String,
    /// An index into `GooseTaskSet.tasks`, indicating which task this is.
    pub task_index: usize,
    /// An optional name for the task.
    pub task_name: String,
    /// Per-run-time counters, tracking how often tasks take a given time to complete.
    pub times: BTreeMap<usize, usize>,
    /// The shortest run-time of the task.
    pub min_time: usize,
    /// The longest run-time of the task.
    pub max_time: usize,
    /// Total combined run-times of the task.
    pub total_time: usize,
    /// Total number of times task has run.
    pub counter: usize,
    /// Total number of times task has run successfully.
    pub success_count: usize,
    /// Total number of times task has failed.
    pub fail_count: usize,
}

/// What a `GooseTaskAggregateMetric` says.
#[verifier::ext_equal]
pub struct TaskAggregateModel {
    pub taskset_index: int,
    pub taskset_name: Seq<char>,
    pub task_index: int,
    pub task_name: Seq<char>,
    pub times: Map<usize, usize>,
    pub min_time: int,
    pub max_time: int,
    pub total_time: int,
    pub counter: int,
    pub success_count: int,
    pub fail_count: int,
}

/// The counter under which a run time is counted: the time itself up to 100 ms, then the nearest
/// ten up to 500 ms, the nearest hundred up to 1000 ms, and the nearest thousand.
pub open spec fn task_bucket(time: u64) -> usize {
    if time <= 100 {
        time as usize
    } else if time <= 500 {
        saturated(nearest(time as nat, 10))
    } else if time <= 1000 {
        saturated(nearest(time as nat, 100))
    } else {
        saturated(nearest(time as nat, 1000))
    }
}

impl TaskAggregateModel {
    /// The aggregate of a task that was not run yet.
    pub open spec fn empty(
        taskset_index: usize,
        taskset_name: Seq<char>,
        task_index: usize,
        task_name: Seq<char>,
    ) -> Self {
        TaskAggregateModel {
            taskset_index: taskset_index as int,
            taskset_name,
            task_index: task_index as int,
            task_name,
            times: Map::empty(),
            min_time: 0,
            max_time: 0,
            total_time: 0,
            counter: 0,
            success_count: 0,
            fail_count: 0,
        }
    }

    /// The counters have room for one more run.
    pub open spec fn has_room_for_run(self, time: u64, success: bool) -> bool {
        &&& self.total_time + (time as usize) <= usize::MAX
        &&& self.counter < usize::MAX
        &&& success ==> self.success_count < usize::MAX
        &&& !success ==> self.fail_count < usize::MAX
        &&& count_of(self.times, task_bucket(time)) < usize::MAX
    }

    /// The aggregate after one more run.
    pub open spec fn with_run(self, time: u64, success: bool) -> Self {
        let elapsed = time as usize;
        let bucket = task_bucket(time);
        TaskAggregateModel {
            times: one_more(self.times, bucket),
            min_time: if self.counter == 0 || elapsed < self.min_time {
                elapsed as int
            } else {
                self.min_time
            },
            max_time: max_time(self.max_time, elapsed as int),
            total_time: self.total_time + elapsed,
            counter: self.counter + 1,
            success_count: self.success_count + if success {
                1int
            } else {
                0
            },
            fail_count: self.fail_count + if success {
                0int
            } else {
                1
            },
            ..self
        }
    }
}

impl View for GooseTaskAggregateMetric {
    type V = TaskAggregateModel;

    open spec fn view(&self) -> TaskAggregateModel {
        TaskAggregateModel {
            taskset_index: self.taskset_index as int,
            taskset_name: self.taskset_name@,
            task_index: self.task_index as int,
            task_name: self.task_name@,
            times: self.times@,
            min_time: self.min_time as int,
            max_time: self.max_time as int,
            total_time: self.total_time as int,
            counter: self.counter as int,
            success_count: self.success_count as int,
            fail_count: self.fail_count as int,
        }
    }
}

/// Rounds a run time so that similar times are counted together.
pub(crate) fn rounded_task_time(time: u64) -> (r: usize)
    ensures
        r == task_bucket(time),
{
    // No rounding for times 0-100 ms.
    if time <= 100 {
        time as usize
    }
    // Round to nearest 10 for times 100-500 ms.
    else if time <= 500 {
        round_to(time, 10)
    }
    // Round to nearest 100 for times 500-1000 ms.
    else if time <= 1000 {
        round_to(time, 100)
    }
    // Round to nearest 1000 for larger times.
    else {
        round_to(time, 1000)
    }
}

impl GooseTaskAggregateMetric {
    /// Create a new GooseTaskAggregateMetric.
    pub fn new(
        taskset_index: usize,
        taskset_name: &str,
        task_index: usize,
        task_name: &str,
    ) -> (r: Self)
        ensures
            r@ == TaskAggregateModel::empty(taskset_index, taskset_name@, task_index, task_name@),
    {
        GooseTaskAggregateMetric {
            taskset_index,
            taskset_name: taskset_name.to_string(),
            task_index,
            task_name: task_name.to_string(),
            times: BTreeMap::new(),
            min_time: 0,
            max_time: 0,
            total_time: 0,
            counter: 0,
            success_count: 0,
            fail_count: 0,
        }
    }

    /// Track task function elapsed time in milliseconds.
    pub fn set_time(&mut self, time: u64, success: bool)
        requires
            old(self)@.has_room_for_run(time, success),
        ensures
            final(self)@ == old(self)@.with_run(time, success),
    {
        // Perform this conversion only once, then re-use throughout this function.
        let time_usize: usize = #[verifier::truncate]
        (time as usize);

        if self.counter == 0 || time_usize < self.min_time {
            // This one is fastest yet.
            self.min_time = time_usize;
        }
        if time_usize > self.max_time {
            // This one is slowest yet.
            self.max_time = time_usize;
        }
        self.total_time += time_usize;

        // Each time we store a new time, increment counter by one.
        self.counter += 1;

        if success {
            self.success_count += 1;
        } else {
            self.fail_count += 1;
        }

        // Round the time so we can combine similar times together and
        // minimize required memory to store and push upstream to the parent.
        let rounded_time: usize = rounded_task_time(time);
        let counter: usize = match self.times.get(&rounded_time) {
            // We've seen this time before, increment counter.
            Some(c) => *c + 1,
            // First time we've seen this time, initialize counter.
            None => 1,
        };
        self.times.insert(rounded_time, counter);
    }
}

/// A run time is counted near itself: exactly up to 100 ms, and else within half of the unit to
/// which it is rounded, which is ten up to 500 ms, a hundred up to 1000 ms, and a thousand.
pub proof fn task_buckets_are_near(time: u64)
    requires
        time <= usize::MAX,
    ensures
        ({
            let bucket = task_bucket(time);
            &&& time <= 100 ==> bucket == time
            &&& 100 < time <= 500 ==> bucket % 10 == 0 && bucket - 5 <= time < bucket + 5
            &&& 500 < time <= 1000 ==> bucket % 100 == 0 && bucket - 50 <= time < bucket + 50
            &&& 1000 < time ==> (bucket % 1000 == 0 || bucket == usize::MAX) && bucket - 500
                <= time < bucket + 500
        }),
{
}

proof fn lemma_bucket_range(time: u64)
    requires
        time <= usize::MAX,
    ensures
        100 < time <= 500 ==> 100 <= task_bucket(time) <= 500,
        500 < time <= 1000 ==> 500 <= task_bucket(time) <= 1000,
        1000 < time ==> 1000 <= task_bucket(time),
{
}

/// A longer run time is not counted as a shorter one.
pub proof fn task_buckets_are_monotone(fast: u64, slow: u64)
    requires
        fast <= slow <= usize::MAX,
    ensures
        task_bucket(fast) <= task_bucket(slow),
{
    lemma_bucket_range(fast);
    lemma_bucket_range(slow);
    if 100 < fast && slow <= 500 {
        lemma_nearest_monotone(fast as nat, slow as nat, 10);
    } else if 500 < fast && slow <= 1000 {
        lemma_nearest_monotone(fast as nat, slow as nat, 100);
    } else if 1000 < fast {
        lemma_nearest_monotone(fast as nat, slow as nat, 1000);
    }
}

impl TaskAggregateModel {
    /// The aggregate after several runs, each given by its time and whether it was successful.
    pub open spec fn with_runs(self, runs: Seq<(u64, bool)>) -> Self
        decreases runs.len(),
    {
        if runs.len() == 0 {
            self
        } else {
            self.with_runs(runs.drop_last()).with_run(runs.last().0, runs.last().1)
        }
    }
}

/// How long runs took.
pub open spec fn times_of(runs: Seq<(u64, bool)>) -> Seq<u64> {
    runs.map_values(|run: (u64, bool)| run.0)
}

/// How many runs were successful.
pub open spec fn successes_of(runs: Seq<(u64, bool)>) -> int
    decreases runs.len(),
{
    if runs.len() == 0 {
        0
    } else {
        successes_of(runs.drop_last()) + if runs.last().1 {
            1int
        } else {
            0
        }
    }
}

/// The times under which runs are counted.
pub open spec fn task_buckets(runs: Seq<(u64, bool)>) -> Seq<usize> {
    runs.map_values(|run: (u64, bool)| task_bucket(run.0))
}

proof fn lemma_run_counters(empty: TaskAggregateModel, runs: Seq<(u64, bool)>)
    requires
        empty.times == Map::<usize, usize>::empty(),
    ensures
        empty.with_runs(runs).times == counters(task_buckets(runs)),
    decreases runs.len(),
{
    if runs.len() > 0 {
        lemma_run_counters(empty, runs.drop_last());
        assert(task_buckets(runs).drop_last() =~= task_buckets(runs.drop_last()));
    }
}

/// An aggregate counts how often its task was run, each time under one time and as a success or as
/// a failure, adds up the times, knows the shortest and the longest one, and stays that of its task.
pub proof fn runs_are_summed_up(
    taskset_index: usize,
    taskset_name: Seq<char>,
    task_index: usize,
    task_name: Seq<char>,
    runs: Seq<(u64, bool)>,
)
    requires
        runs.len() <= usize::MAX,
        forall|i: int| 0 <= i < runs.len() ==> (#[trigger] runs[i]).0 <= usize::MAX,
    ensures
        ({
            let aggregate = TaskAggregateModel::empty(
                taskset_index,
                taskset_name,
                task_index,
                task_name,
            ).with_runs(runs);
            &&& aggregate.counter == runs.len()
            &&& aggregate.success_count == successes_of(runs)
            &&& aggregate.success_count + aggregate.fail_count == runs.len()
            &&& aggregate.times == counters(task_buckets(runs))
            &&& count_all(aggregate.times) == runs.len()
            &&& aggregate.total_time == sum_of(times_of(runs))
            &&& forall|i: int| 0 <= i < runs.len() ==> (#[trigger] runs[i]).0 <= aggregate.max_time
            &&& runs.len() > 0 ==> exists|i: int|
                0 <= i < runs.len() && (#[trigger] runs[i]).0 == aggregate.max_time
            &&& forall|i: int| 0 <= i < runs.len() ==> aggregate.min_time <= (#[trigger] runs[i]).0
            &&& runs.len() > 0 ==> exists|i: int|
                0 <= i < runs.len() && (#[trigger] runs[i]).0 == aggregate.min_time
            &&& aggregate.taskset_index == taskset_index
            &&& aggregate.taskset_name == taskset_name
            &&& aggregate.task_index == task_index
            &&& aggregate.task_name == task_name
        }),
    decreases runs.len(),
{
    let empty = TaskAggregateModel::empty(taskset_index, taskset_name, task_index, task_name);
    lemma_run_counters(empty, runs);
    counters_count_what_was_seen(task_buckets(runs), 0);
    if runs.len() > 0 {
        let rest = runs.drop_last();
        let before = empty.with_runs(rest);
        let after = empty.with_runs(runs);
        assert forall|i: int| 0 <= i < rest.len() implies (#[trigger] rest[i]).0 <= usize::MAX by {
            assert(runs[i].0 <= usize::MAX);
        }
        runs_are_summed_up(taskset_index, taskset_name, task_index, task_name, rest);
        assert(times_of(runs).drop_last() =~= times_of(rest));
        assert(runs[runs.len() - 1] == runs.last());
        assert forall|i: int| 0 <= i < runs.len() implies after.min_time <= (#[trigger] runs[i]).0
            <= after.max_time by {
            if i < rest.len() {
                assert(rest[i] == runs[i]);
            }
        }
        if before.max_time == after.max_time && rest.len() > 0 {
            let i = choose|i: int|
                0 <= i < rest.len() && (#[trigger] rest[i]).0 == before.max_time;
            assert(runs[i].0 == after.max_time);
        } else {
            assert(runs[runs.len() - 1].0 == after.max_time);
        }
        if before.min_time == after.min_time && rest.len() > 0 {
            let i = choose|i: int|
                0 <= i < rest.len() && (#[trigger] rest[i]).0 == before.min_time;
            assert(runs[i].0 == after.min_time);
        } else {
            assert(runs[runs.len() - 1].0 == after.min_time);
        }
    }
}

proof fn lemma_swap_runs(aggregate: TaskAggregateModel, a: (u64, bool), b: (u64, bool))
    requires
        aggregate.counter >= 0,
    ensures
        aggregate.with_run(a.0, a.1).with_run(b.0, b.1) == aggregate.with_run(b.0, b.1).with_run(
            a.0,
            a.1,
        ),
{
    assert(aggregate.with_run(a.0, a.1).with_run(b.0, b.1) =~= aggregate.with_run(
        b.0,
        b.1,
    ).with_run(a.0, a.1));
}

proof fn lemma_runs_counted(aggregate: TaskAggregateModel, runs: Seq<(u64, bool)>)
    ensures
        aggregate.with_runs(runs).counter == aggregate.counter + runs.len(),
    decreases runs.len(),
{
    if runs.len() > 0 {
        lemma_runs_counted(aggregate, runs.drop_last());
    }
}

proof fn lemma_run_to_end(aggregate: TaskAggregateModel, runs: Seq<(u64, bool)>, i: int)
    requires
        aggregate.counter >= 0,
        0 <= i < runs.len(),
    ensures
        aggregate.with_runs(runs) == aggregate.with_runs(runs.remove(i)).with_run(
            runs[i].0,
            runs[i].1,
        ),
    decreases runs.len(),
{
    let (rest, last) = (runs.drop_last(), runs.last());
    if i == runs.len() - 1 {
        assert(runs.remove(i) =~= rest);
    } else {
        lemma_run_to_end(aggregate, rest, i);
        assert(runs.remove(i).drop_last() =~= rest.remove(i));
        lemma_runs_counted(aggregate, rest.remove(i));
        lemma_swap_runs(aggregate.with_runs(rest.remove(i)), runs[i], last);
    }
}

/// It does not matter in which order runs are counted.
pub proof fn runs_in_any_order(
    aggregate: TaskAggregateModel,
    xs: Seq<(u64, bool)>,
    ys: Seq<(u64, bool)>,
)
    requires
        aggregate.counter >= 0,
        xs.to_multiset() == ys.to_multiset(),
    ensures
        aggregate.with_runs(xs) == aggregate.with_runs(ys),
    decreases ys.len(),
{
    broadcast use vstd::seq_lib::group_to_multiset_ensures;
    broadcast use vstd::multiset::group_multiset_axioms;

    xs.to_multiset_ensures();
    ys.to_multiset_ensures();
    if ys.len() > 0 {
        let last = ys.last();
        assert(ys.contains(last));
        assert(xs.to_multiset().count(last) > 0);
        assert(xs.contains(last));
        let i = xs.index_of(last);
        assert(xs[i] == last);
        assert(ys.remove(ys.len() - 1) =~= ys.drop_last());
        assert(xs.remove(i).to_multiset() == ys.drop_last().to_multiset());
        runs_in_any_order(aggregate, xs.remove(i), ys.drop_last());
        lemma_run_to_end(aggregate, xs, i);
    }
}

/// However many runs of at most 1000 ms are counted, they fill few counters: at most 146.
pub proof fn short_runs_fill_few_counters(
    taskset_index: usize,
    taskset_name: Seq<char>,
    task_index: usize,
    task_name: Seq<char>,
    runs: Seq<(u64, bool)>,
)
    requires
        forall|i: int| 0 <= i < runs.len() ==> (#[trigger] runs[i]).0 <= 1000,
    ensures
        ({
            let counted = TaskAggregateModel::empty(
                taskset_index,
                taskset_name,
                task_index,
                task_name,
            ).with_runs(runs).times;
            &&& counted.dom().finite()
            &&& counted.len() <= 146
            &&& forall|time: usize| #[trigger] counted.contains_key(time) ==> is_short_bucket(time)
        }),
{
    let empty = TaskAggregateModel::empty(taskset_index, taskset_name, task_index, task_name);
    let counted = empty.with_runs(runs).times;
    lemma_short_runs(empty, runs);
    assert forall|time: usize| #[trigger] counted.dom().contains(time) implies is_short_bucket(
        time,
    ) by {
        assert(counted.contains_key(time));
    }
    lemma_few_short_buckets(counted.dom());
}

proof fn lemma_short_runs(empty: TaskAggregateModel, runs: Seq<(u64, bool)>)
    requires
        empty.times == Map::<usize, usize>::empty(),
        forall|i: int| 0 <= i < runs.len() ==> (#[trigger] runs[i]).0 <= 1000,
    ensures
        forall|time: usize| #[trigger]
            empty.with_runs(runs).times.contains_key(time) ==> is_short_bucket(time),
    decreases runs.len(),
{
    if runs.len() > 0 {
        let rest = runs.drop_last();
        assert forall|i: int| 0 <= i < rest.len() implies (#[trigger] rest[i]).0 <= 1000 by {
            assert(runs[i].0 <= 1000);
        }
        lemma_short_runs(empty, rest);
        assert(runs[runs.len() - 1] == runs.last());
        let bucket = task_bucket(runs.last().0);
        lemma_bucket_range(runs.last().0);
        task_buckets_are_near(runs.last().0);
        assert(is_short_bucket(bucket)) by {
            assert(bucket % 100 == 0 ==> bucket % 10 == 0);
        }
        assert forall|time: usize| #[trigger]
            empty.with_runs(runs).times.contains_key(time) implies is_short_bucket(time) by {
            assert(time == bucket || empty.with_runs(rest).times.contains_key(time));
        }
    }
}

} // verus!
