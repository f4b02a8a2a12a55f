//! What holds of the metrics of a load test at all times, whatever was received.

use crate::attack::{accepts_metric, after_metric, kept_request, request_key, tracks_error};
use crate::error::{error_key, ErrorModel};
use crate::goose::{GooseConfiguration, GooseTaskSet};
use crate::layout::joined;
use crate::metrics::{
    fresh_task_set, fresh_tasks, request_times, task_times, MetricModel, MetricsModel,
};
use crate::order::names_can_be_ordered;
use crate::receive::after_metrics;
use crate::request::{code_count, response_bucket, RequestAggregateModel, RequestModel};
use crate::task::{task_bucket, TaskAggregateModel};
use crate::times::{
    count_all, displayed_time, displayed_times_are_bounded, lemma_count_nothing,
    lemma_count_one_more, merging_adds_counts, ranks_up_to_count_are_found,
};
use crate::timing::{time_sum, times_sum_fits, TimeModel};
use vstd::prelude::*;

verus! {

/// How many of the counted status codes are at most `bound`.
pub open spec fn codes_up_to(counts: Map<u16, usize>, bound: int) -> nat
    decreases bound + 1,
{
    if bound < 0 {
        0
    } else {
        codes_up_to(counts, bound - 1) + code_count(counts, bound as u16)
    }
}

/// How many status codes were counted in all.
pub open spec fn codes_counted(counts: Map<u16, usize>) -> nat {
    codes_up_to(counts, u16::MAX as int)
}

proof fn lemma_codes_one_more(counts: Map<u16, usize>, code: u16, bound: int)
    requires
        bound <= u16::MAX,
        code_count(counts, code) < usize::MAX,
    ensures
        codes_up_to(counts.insert(code, (code_count(counts, code) + 1) as usize), bound)
            == codes_up_to(counts, bound) + if code <= bound {
            1int
        } else {
            0
        },
    decreases bound + 1,
{
    if bound >= 0 {
        lemma_codes_one_more(counts, code, bound - 1);
    }
}

proof fn lemma_no_codes(bound: int)
    ensures
        codes_up_to(Map::empty(), bound) == 0,
    decreases bound + 1,
{
    if bound >= 0 {
        lemma_no_codes(bound - 1);
    }
}

proof fn lemma_codes_monotone(counts: Map<u16, usize>, low: int, high: int)
    requires
        low <= high,
    ensures
        codes_up_to(counts, low) <= codes_up_to(counts, high),
    decreases high - low,
{
    if low < high && high >= 0 {
        lemma_codes_monotone(counts, low, high - 1);
    }
}

/// No counter is greater than all of them together.
pub(crate) proof fn lemma_code_at_most_all(counts: Map<u16, usize>, code: u16)
    ensures
        code_count(counts, code) <= codes_counted(counts),
{
    lemma_codes_monotone(counts, code as int, u16::MAX as int);
}

impl RequestAggregateModel {
    /// Every request that was counted is counted under one response time, as a success or as a
    /// failure, and under at most one status code. The shortest response time is not longer than
    /// the longest one, and that is not longer than all together.
    pub open spec fn counted_once(self) -> bool {
        &&& count_all(self.response_times) == self.response_time_counter
        &&& self.success_count + self.fail_count == self.response_time_counter
        &&& self.success_count >= 0
        &&& self.fail_count >= 0
        &&& 0 <= self.min_response_time <= self.max_response_time <= self.total_response_time
        &&& codes_counted(self.status_code_counts) <= self.response_time_counter
    }

    /// Every request is counted once, and under a status code exactly where these are counted.
    pub open spec fn consistent(self, status_codes: bool) -> bool {
        &&& self.counted_once()
        &&& codes_counted(self.status_code_counts) == if status_codes {
            self.response_time_counter
        } else {
            0
        }
    }
}

impl TaskAggregateModel {
    /// Every run of the task is counted under one time, and as a success or as a failure.
    pub open spec fn consistent(self) -> bool {
        &&& count_all(self.times) == self.counter
        &&& self.success_count + self.fail_count == self.counter
        &&& self.success_count >= 0
        &&& self.fail_count >= 0
        &&& 0 <= self.min_time <= self.max_time <= self.total_time
    }
}

impl MetricsModel {
    /// Every request, run and error is counted once, in an aggregate that is kept under the name
    /// that belongs to it.
    pub open spec fn counted_once(self) -> bool {
        &&& forall|name: Seq<char>| #[trigger]
            self.requests.contains_key(name) ==> self.requests[name].counted_once() && name
                == self.requests[name].method.text() + " "@ + self.requests[name].path
        &&& forall|set: int, task: int|
            0 <= set < self.tasks.len() && 0 <= task < self.tasks[set].len()
                ==> (#[trigger] self.tasks[set][task]).consistent()
        &&& forall|key: Seq<char>| #[trigger]
            self.errors.contains_key(key) ==> key == error_key(
                self.errors[key].error,
                self.errors[key].method,
                self.errors[key].name,
            ) && self.errors[key].occurrences >= 0
    }

    /// Everything is counted once, and requests under a status code exactly where these are
    /// counted.
    pub open spec fn consistent(self, status_codes: bool) -> bool {
        &&& self.counted_once()
        &&& forall|name: Seq<char>| #[trigger]
            self.requests.contains_key(name) ==> self.requests[name].consistent(status_codes)
    }
}

/// Whatever the option to count status codes is, the aggregate of no request counts every request
/// once, and still does after every request that it has room for.
pub proof fn requests_are_counted_once(
    aggregate: RequestAggregateModel,
    request: RequestModel,
    status_codes: bool,
)
    requires
        aggregate.counted_once() || aggregate == RequestAggregateModel::empty(
            aggregate.path,
            aggregate.method,
            aggregate.load_test_hash,
        ),
        aggregate.has_room_for_request(request, status_codes),
    ensures
        aggregate.counted_once(),
        aggregate.with_request(request, status_codes).counted_once(),
{
    lemma_count_nothing(usize::MAX as int);
    lemma_no_codes(u16::MAX as int);
    if !request.update {
        lemma_count_one_more(
            aggregate.response_times,
            response_bucket(request.response_time),
            usize::MAX as int,
        );
        if status_codes {
            lemma_codes_one_more(
                aggregate.status_code_counts,
                request.status_code,
                u16::MAX as int,
            );
        }
    }
}

/// The aggregate of no request is consistent, and stays so with every request that it has room
/// for.
pub proof fn requests_keep_aggregates_consistent(
    aggregate: RequestAggregateModel,
    request: RequestModel,
    status_codes: bool,
)
    requires
        aggregate.consistent(status_codes) || aggregate == RequestAggregateModel::empty(
            aggregate.path,
            aggregate.method,
            aggregate.load_test_hash,
        ),
        aggregate.has_room_for_request(request, status_codes),
    ensures
        aggregate.consistent(status_codes),
        aggregate.with_request(request, status_codes).consistent(status_codes),
{
    lemma_count_nothing(usize::MAX as int);
    lemma_no_codes(u16::MAX as int);
    if !request.update {
        lemma_count_one_more(
            aggregate.response_times,
            response_bucket(request.response_time),
            usize::MAX as int,
        );
        if status_codes {
            lemma_codes_one_more(
                aggregate.status_code_counts,
                request.status_code,
                u16::MAX as int,
            );
        }
    }
}

/// The aggregate of a task that was not run is consistent, and stays so with every run that it has
/// room for.
pub proof fn runs_keep_aggregates_consistent(
    aggregate: TaskAggregateModel,
    time: u64,
    success: bool,
)
    requires
        aggregate.consistent(),
        aggregate.has_room_for_run(time, success),
    ensures
        aggregate.with_run(time, success).consistent(),
{
    lemma_count_one_more(aggregate.times, task_bucket(time), usize::MAX as int);
}

/// Metrics are consistent before anything was received, for any task sets.
pub proof fn fresh_metrics_are_consistent(task_sets: Seq<GooseTaskSet>, status_codes: bool)
    ensures
        MetricsModel::empty().consistent(status_codes),
        (MetricsModel { tasks: fresh_tasks(task_sets), ..MetricsModel::empty() }).consistent(
            status_codes,
        ),
{
    let fresh = fresh_tasks(task_sets);
    assert forall|set: int, task: int|
        0 <= set < fresh.len() && 0 <= task
            < fresh[set].len() implies (#[trigger] fresh[set][task]).consistent() by {
        assert(fresh[set] == fresh_task_set(task_sets[set]));
        lemma_count_nothing(usize::MAX as int);
    }
}

/// Whatever metric is received, and whatever the options are, everything is still counted once.
pub proof fn metrics_are_counted_once(
    metrics: MetricsModel,
    configuration: GooseConfiguration,
    metric: MetricModel,
)
    requires
        metrics.counted_once(),
        accepts_metric(metrics, configuration, metric),
        metric matches MetricModel::Error(error) ==> error.occurrences >= 0,
    ensures
        after_metric(metrics, configuration, metric).counted_once(),
{
    match metric {
        MetricModel::Request(request) => {
            requests_are_counted_once(
                kept_request(metrics.requests, request),
                request,
                configuration.status_codes,
            );
        },
        MetricModel::Task(task) => {
            let (set, index) = (task.taskset_index as int, task.task_index as int);
            runs_keep_aggregates_consistent(
                metrics.tasks[set][index],
                task.run_time,
                task.success,
            );
        },
        MetricModel::Error(error) => {},
    }
}

/// Whatever metric is received, the metrics stay consistent.
pub proof fn metrics_stay_consistent(
    metrics: MetricsModel,
    configuration: GooseConfiguration,
    metric: MetricModel,
)
    requires
        metrics.consistent(configuration.status_codes),
        accepts_metric(metrics, configuration, metric),
        metric matches MetricModel::Error(error) ==> error.occurrences >= 0,
    ensures
        after_metric(metrics, configuration, metric).consistent(configuration.status_codes),
{
    metrics_are_counted_once(metrics, configuration, metric);
    if let MetricModel::Request(request) = metric {
        requests_keep_aggregates_consistent(
            kept_request(metrics.requests, request),
            request,
            configuration.status_codes,
        );
    }
}

/// The metrics have room for several metrics, one after the other.
pub open spec fn accepts_metrics(
    metrics: MetricsModel,
    configuration: GooseConfiguration,
    waiting: Seq<MetricModel>,
) -> bool
    decreases waiting.len(),
{
    waiting.len() == 0 || (accepts_metric(metrics, configuration, waiting[0]) && accepts_metrics(
        after_metric(metrics, configuration, waiting[0]),
        configuration,
        waiting.drop_first(),
    ))
}

/// No metric reports that an error occurred less than zero times.
pub open spec fn counts_are_natural(waiting: Seq<MetricModel>) -> bool {
    forall|i: int|
        0 <= i < waiting.len() ==> (#[trigger] waiting[i] matches MetricModel::Error(error)
            ==> error.occurrences >= 0)
}

/// However many metrics are received, the metrics stay consistent.
pub proof fn received_metrics_stay_consistent(
    metrics: MetricsModel,
    configuration: GooseConfiguration,
    waiting: Seq<MetricModel>,
)
    requires
        metrics.consistent(configuration.status_codes),
        accepts_metrics(metrics, configuration, waiting),
        counts_are_natural(waiting),
    ensures
        after_metrics(metrics, configuration, waiting).consistent(configuration.status_codes),
    decreases waiting.len(),
{
    if waiting.len() > 0 {
        metrics_stay_consistent(metrics, configuration, waiting[0]);
        received_metrics_stay_consistent(
            after_metric(metrics, configuration, waiting[0]),
            configuration,
            waiting.drop_first(),
        );
    }
}

/// How often the error kept under `key` occurred.
pub open spec fn error_count(metrics: MetricsModel, key: Seq<char>) -> int {
    if metrics.errors.contains_key(key) {
        metrics.errors[key].occurrences
    } else {
        0
    }
}

/// A metric reports the error that is kept under `key`.
pub open spec fn reports_error(
    configuration: GooseConfiguration,
    metric: MetricModel,
    key: Seq<char>,
) -> bool {
    match metric {
        MetricModel::Request(request) => tracks_error(configuration, request) && key == error_key(
            request.error,
            request.method,
            request.name,
        ),
        MetricModel::Task(_) => false,
        MetricModel::Error(error) => key == error_key(error.error, error.method, error.name),
    }
}

/// How often a metric reports the error that is kept under `key`.
pub open spec fn errors_reported(
    configuration: GooseConfiguration,
    metric: MetricModel,
    key: Seq<char>,
) -> int {
    if reports_error(configuration, metric, key) {
        match metric {
            MetricModel::Error(error) => error.occurrences,
            _ => 1,
        }
    } else {
        0
    }
}

/// How often metrics report the error that is kept under `key`.
pub open spec fn errors_reported_by(
    configuration: GooseConfiguration,
    waiting: Seq<MetricModel>,
    key: Seq<char>,
) -> int
    decreases waiting.len(),
{
    if waiting.len() == 0 {
        0
    } else {
        errors_reported(configuration, waiting[0], key) + errors_reported_by(
            configuration,
            waiting.drop_first(),
            key,
        )
    }
}

/// Errors with the same method, name and text are kept together, with how often they were
/// reported; requests report none where the summary of errors is disabled.
pub proof fn errors_are_counted(
    metrics: MetricsModel,
    configuration: GooseConfiguration,
    waiting: Seq<MetricModel>,
    key: Seq<char>,
)
    ensures
        error_count(after_metrics(metrics, configuration, waiting), key) == error_count(
            metrics,
            key,
        ) + errors_reported_by(configuration, waiting, key),
    decreases waiting.len(),
{
    if waiting.len() > 0 {
        errors_are_counted(
            after_metric(metrics, configuration, waiting[0]),
            configuration,
            waiting.drop_first(),
            key,
        );
    }
}

/// An error that was tracked keeps its method, its name and its text.
pub proof fn errors_keep_their_text(
    metrics: MetricsModel,
    configuration: GooseConfiguration,
    metric: MetricModel,
    key: Seq<char>,
)
    requires
        metrics.errors.contains_key(key),
    ensures
        ({
            let (before, after) = (metrics, after_metric(metrics, configuration, metric));
            &&& after.errors.contains_key(key)
            &&& after.errors[key] == (ErrorModel {
                occurrences: after.errors[key].occurrences,
                ..before.errors[key]
            })
        }),
{
}

/// Where the summary of errors is disabled, requests leave the errors as they are.
pub proof fn disabled_summary_keeps_errors(
    metrics: MetricsModel,
    configuration: GooseConfiguration,
    request: RequestModel,
)
    requires
        configuration.no_error_summary,
    ensures
        after_metric(metrics, configuration, MetricModel::Request(request)).errors
            == metrics.errors,
{
}

/// How many requests were counted under `name`.
pub open spec fn request_count(metrics: MetricsModel, name: Seq<char>) -> int {
    if metrics.requests.contains_key(name) {
        metrics.requests[name].response_time_counter
    } else {
        0
    }
}

/// How many of the metrics are requests, and not updates, that are counted under `name`.
pub open spec fn requests_made(waiting: Seq<MetricModel>, name: Seq<char>) -> int
    decreases waiting.len(),
{
    if waiting.len() == 0 {
        0
    } else {
        requests_made(waiting.drop_first(), name) + match waiting[0] {
            MetricModel::Request(request) => if !request.update && request_key(request) == name {
                1int
            } else {
                0
            },
            _ => 0,
        }
    }
}

/// Requests with the same method and name are counted together, each of them once.
pub proof fn requests_are_counted(
    metrics: MetricsModel,
    configuration: GooseConfiguration,
    waiting: Seq<MetricModel>,
    name: Seq<char>,
)
    ensures
        request_count(after_metrics(metrics, configuration, waiting), name) == request_count(
            metrics,
            name,
        ) + requests_made(waiting, name),
    decreases waiting.len(),
{
    if waiting.len() > 0 {
        requests_are_counted(
            after_metric(metrics, configuration, waiting[0]),
            configuration,
            waiting.drop_first(),
            name,
        );
    }
}

/// How many of the metrics are runs of a task.
pub open spec fn runs_made(waiting: Seq<MetricModel>, set: int, index: int) -> int
    decreases waiting.len(),
{
    if waiting.len() == 0 {
        0
    } else {
        runs_made(waiting.drop_first(), set, index) + match waiting[0] {
            MetricModel::Task(task) => if task.taskset_index == set && task.task_index == index {
                1int
            } else {
                0
            },
            _ => 0,
        }
    }
}

/// Every run of a task is counted once, for that task.
pub proof fn runs_are_counted(
    metrics: MetricsModel,
    configuration: GooseConfiguration,
    waiting: Seq<MetricModel>,
    set: int,
    index: int,
)
    requires
        0 <= set < metrics.tasks.len(),
        0 <= index < metrics.tasks[set].len(),
        accepts_metrics(metrics, configuration, waiting),
    ensures
        ({
            let after = after_metrics(metrics, configuration, waiting);
            &&& after.tasks.len() == metrics.tasks.len()
            &&& after.tasks[set].len() == metrics.tasks[set].len()
            &&& after.tasks[set][index].counter == metrics.tasks[set][index].counter + runs_made(
                waiting,
                set,
                index,
            )
        }),
    decreases waiting.len(),
{
    if waiting.len() > 0 {
        runs_are_counted(
            after_metric(metrics, configuration, waiting[0]),
            configuration,
            waiting.drop_first(),
            set,
            index,
        );
    }
}

/// A metric changes nothing but what it speaks of: the requests of its name, its task, or the
/// errors with its key. Neither the options of the display nor the times of the load test change.
pub proof fn other_metrics_stay_unchanged(
    metrics: MetricsModel,
    configuration: GooseConfiguration,
    metric: MetricModel,
    name: Seq<char>,
    set: int,
    index: int,
)
    requires
        accepts_metric(metrics, configuration, metric),
        0 <= set < metrics.tasks.len(),
        0 <= index < metrics.tasks[set].len(),
    ensures
        ({
            let after = after_metric(metrics, configuration, metric);
            &&& (metric matches MetricModel::Request(request) ==> request_key(request) != name)
                ==> after.requests.contains_key(name) == metrics.requests.contains_key(name)
                && after.requests[name] == metrics.requests[name]
            &&& (metric matches MetricModel::Task(task) ==> task.taskset_index != set
                || task.task_index != index) ==> after.tasks[set][index]
                == metrics.tasks[set][index]
            &&& !reports_error(configuration, metric, name) ==> after.errors.contains_key(name)
                == metrics.errors.contains_key(name) && after.errors[name] == metrics.errors[name]
            &&& after == (MetricsModel {
                requests: after.requests,
                tasks: after.tasks,
                errors: after.errors,
                ..metrics
            })
        }),
{
}

/// An update that turns a request into a success is undone by one that turns it into a failure.
pub proof fn updates_undo_each_other(
    aggregate: RequestAggregateModel,
    success: RequestModel,
    failure: RequestModel,
    status_codes: bool,
)
    requires
        success.update && success.success,
        failure.update && !failure.success,
    ensures
        aggregate.with_request(success, status_codes).with_request(failure, status_codes)
            == aggregate,
        aggregate.with_request(failure, status_codes).with_request(success, status_codes)
            == aggregate,
{
}

/// Tasks that were not run yet accept every run.
pub proof fn fresh_tasks_accept_runs(
    metrics: MetricsModel,
    configuration: GooseConfiguration,
    task_sets: Seq<GooseTaskSet>,
    metric: MetricModel,
)
    requires
        metrics.tasks == fresh_tasks(task_sets),
        metric matches MetricModel::Task(task) && task.taskset_index < task_sets.len()
            && task.task_index < task_sets[task.taskset_index as int].tasks@.len(),
    ensures
        accepts_metric(metrics, configuration, metric),
{
}

impl TimeModel {
    /// Every time is counted once. The shortest time is not longer than the longest one, and that
    /// is not longer than all together.
    pub open spec fn consistent(self) -> bool {
        &&& count_all(self.times) == self.counter
        &&& 0 <= self.min <= self.max <= self.total
    }
}

/// The times that the tables show of consistent metrics are consistent, row by row.
pub proof fn displayed_rows_are_consistent(metrics: MetricsModel, status_codes: bool)
    requires
        metrics.consistent(status_codes),
        metrics.requests.dom().finite(),
    ensures
        forall|i: int|
            0 <= i < metrics.request_rows().len() ==> (#[trigger] request_times(
                metrics.request_rows(),
            )[i]).consistent(),
        forall|i: int|
            0 <= i < metrics.task_rows().len() ==> (#[trigger] task_times(
                metrics.task_rows(),
            )[i]).consistent(),
{
    let names = metrics.request_names();
    names_can_be_ordered(metrics.requests.dom());
    assert forall|i: int| 0 <= i < names.len() implies (#[trigger] request_times(
        metrics.request_rows(),
    )[i]).consistent() by {
        assert(names.contains(names[i]));
        assert(names.to_set().contains(names[i]));
        assert(metrics.requests.contains_key(names[i]));
    }
    lemma_tasks_consistent(metrics.tasks);
}

proof fn lemma_tasks_consistent(sets: Seq<Seq<TaskAggregateModel>>)
    requires
        forall|set: int, task: int|
            0 <= set < sets.len() && 0 <= task < sets[set].len()
                ==> (#[trigger] sets[set][task]).consistent(),
    ensures
        forall|i: int| 0 <= i < joined(sets).len() ==> (#[trigger] joined(sets)[i]).consistent(),
    decreases sets.len(),
{
    if sets.len() > 0 {
        let rest = sets.drop_last();
        assert forall|set: int, task: int|
            0 <= set < rest.len() && 0 <= task
                < rest[set].len() implies (#[trigger] rest[set][task]).consistent() by {
            assert(sets[set][task].consistent());
        }
        lemma_tasks_consistent(rest);
        assert forall|i: int| 0 <= i < joined(sets).len() implies (
        #[trigger] joined(sets)[i]).consistent() by {
            if i >= joined(rest).len() {
                assert(sets[sets.len() - 1][i - joined(rest).len()].consistent());
            }
        }
    }
}

/// What the aggregate of a table shows is consistent where its rows are: it counts as many times
/// as all rows, and its extremes are those of the rows.
pub proof fn aggregate_of_rows_is_consistent(rows: Seq<TimeModel>, i: int)
    requires
        times_sum_fits(rows),
        forall|j: int| 0 <= j < rows.len() ==> (#[trigger] rows[j]).consistent(),
        0 <= i < rows.len(),
    ensures
        time_sum(rows).consistent(),
        rows[i].max <= time_sum(rows).max,
        rows[i].min > 0 ==> 0 < time_sum(rows).min <= rows[i].min,
        rows[i].counter <= time_sum(rows).counter,
    decreases rows.len(),
{
    let rest = rows.drop_last();
    let last = rows[rows.len() - 1];
    assert(last.consistent());
    assert forall|j: int| 0 <= j < rest.len() implies (#[trigger] rest[j]).consistent() by {
        assert(rows[j].consistent());
    }
    if rest.len() > 0 {
        let k = if i < rest.len() {
            i
        } else {
            0
        };
        aggregate_of_rows_is_consistent(rest, k);
        assert(rest[k] == rows[k]);
    } else {
        lemma_count_nothing(usize::MAX as int);
    }
    merging_adds_counts(time_sum(rest).times, last.times, 0);
}

/// The percentiles and the median of a row or of an aggregate, that is what is displayed for the
/// ranks up to its number of times, lie between the shortest and the longest time; and those for a
/// greater part of the times are not shorter.
pub proof fn percentiles_lie_between_extremes(row: TimeModel, low: nat, high: nat)
    requires
        row.consistent(),
        row.max <= usize::MAX,
        0 < row.counter,
        low <= high <= row.counter,
    ensures
        row.min <= displayed_time(row.times, low, row.min as usize, row.max as usize)
            <= displayed_time(row.times, high, row.min as usize, row.max as usize) <= row.max,
{
    lemma_count_nothing(usize::MAX as int);
    ranks_up_to_count_are_found(row.times, high);
    displayed_times_are_bounded(row.times, low, high, row.min as usize, row.max as usize);
}

/// The metrics after several metrics were received, each with the options of its moment.
pub open spec fn after_changing_options(
    metrics: MetricsModel,
    received: Seq<(GooseConfiguration, MetricModel)>,
) -> MetricsModel
    decreases received.len(),
{
    if received.len() == 0 {
        metrics
    } else {
        after_metric(
            after_changing_options(metrics, received.drop_last()),
            received.last().0,
            received.last().1,
        )
    }
}

/// The metrics have room for several metrics, each with the options of its moment.
pub open spec fn accepts_changing_options(
    metrics: MetricsModel,
    received: Seq<(GooseConfiguration, MetricModel)>,
) -> bool
    decreases received.len(),
{
    received.len() == 0 || (accepts_changing_options(metrics, received.drop_last())
        && accepts_metric(
        after_changing_options(metrics, received.drop_last()),
        received.last().0,
        received.last().1,
    ))
}

/// Even where the options change between metrics, everything is still counted once: every request
/// that is kept has the name of its method and path, counts each of its requests under one response
/// time and as a success or a failure, and counts no more status codes than requests.
pub proof fn changing_options_keep_counts(
    metrics: MetricsModel,
    received: Seq<(GooseConfiguration, MetricModel)>,
)
    requires
        metrics.counted_once(),
        accepts_changing_options(metrics, received),
        forall|i: int|
            0 <= i < received.len() ==> ((#[trigger] received[i]).1 matches MetricModel::Error(error)
                ==> error.occurrences >= 0),
    ensures
        after_changing_options(metrics, received).counted_once(),
    decreases received.len(),
{
    if received.len() > 0 {
        let rest = received.drop_last();
        assert forall|i: int| 0 <= i < rest.len() implies ((
        #[trigger] rest[i]).1 matches MetricModel::Error(error) ==> error.occurrences >= 0) by {
            assert(received[i] == rest[i]);
        }
        changing_options_keep_counts(metrics, rest);
        assert(received[received.len() - 1] == received.last());
        metrics_are_counted_once(
            after_changing_options(metrics, rest),
            received.last().0,
            received.last().1,
        );
    }
}

} // verus!
