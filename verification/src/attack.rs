//! A load test that records the metrics of its users.

use crate::error::{error_key, error_key_text, ErrorModel, GooseErrorMetric};
use crate::goose::{GooseConfiguration, GooseMethod};
use crate::metrics::{task_models, GooseMetric, GooseMetrics, MetricModel, MetricsModel};
use crate::request::{
    code_count, rounded_response_time, GooseRequestAggregateMetric, GooseRequestMetric,
    RequestAggregateModel, RequestModel,
};
use crate::task::{rounded_task_time, GooseTaskAggregateMetric, GooseTaskMetric, TaskModel};
use vstd::prelude::*;

verus! {

broadcast use {vstd::std_specs::btree::group_btree_axioms, vstd::laws_cmp::group_laws_cmp};

/// A load test: its options, and the metrics collected so far.
#[derive(Debug)]
pub struct GooseAttack {
    /// The metrics collected so far.
    pub metrics: GooseMetrics,
    /// The options of the load test.
    pub configuration: GooseConfiguration,
}

/// The error that is kept for a method, a name and a text: one that did not occur yet, if there is
/// none.
pub open spec fn kept_error(
    errors: Map<Seq<char>, ErrorModel>,
    method: GooseMethod,
    name: Seq<char>,
    error: Seq<char>,
) -> ErrorModel {
    let key = error_key(error, method, name);
    if errors.contains_key(key) {
        errors[key]
    } else {
        ErrorModel { method, name, error, occurrences: 0 }
    }
}

/// The errors after an error occurred `count` times more.
pub open spec fn errors_after(
    errors: Map<Seq<char>, ErrorModel>,
    method: GooseMethod,
    name: Seq<char>,
    error: Seq<char>,
    count: int,
) -> Map<Seq<char>, ErrorModel> {
    let before = kept_error(errors, method, name, error);
    errors.insert(
        error_key(error, method, name),
        ErrorModel { occurrences: before.occurrences + count, ..before },
    )
}

/// The counter of an error has room for `count` more.
pub open spec fn error_fits(
    errors: Map<Seq<char>, ErrorModel>,
    method: GooseMethod,
    name: Seq<char>,
    error: Seq<char>,
    count: int,
) -> bool {
    kept_error(errors, method, name, error).occurrences + count <= usize::MAX
}

impl GooseAttack {
    /// Counts an error `count` times more.
    fn add_error(&mut self, method: GooseMethod, name: &str, error: &str, count: usize)
        requires
            error_fits(old(self).metrics@.errors, method, name@, error@, count as int),
        ensures
            final(self).configuration == old(self).configuration,
            final(self).metrics@ == (MetricsModel {
                errors: errors_after(
                    old(self).metrics@.errors,
                    method,
                    name@,
                    error@,
                    count as int,
                ),
                ..old(self).metrics@
            }),
    {
        // Create a string to uniquely identify errors for tracking metrics.
        let error_string = error_key_text(error, method, name);
        let mut error_metrics = match self.metrics.errors.remove(error_string.as_str()) {
            // We've seen this error before.
            Some(m) => m,
            // First time we've seen this error.
            None => GooseErrorMetric::new(method, name.to_string(), error.to_string()),
        };
        error_metrics.occurrences += count;
        self.metrics.errors.insert(error_string, error_metrics);
        assert(self.metrics@.errors =~= errors_after(
            old(self).metrics@.errors,
            method,
            name@,
            error@,
            count as int,
        ));
    }

    /// Update error metrics.
    pub fn record_error(&mut self, raw_request: &GooseRequestMetric)
        requires
            !old(self).configuration.no_error_summary ==> error_fits(
                old(self).metrics@.errors,
                raw_request@.method,
                raw_request@.name,
                raw_request@.error,
                1,
            ),
        ensures
            final(self).configuration == old(self).configuration,
            final(self).metrics@ == (MetricsModel {
                errors: if old(self).configuration.no_error_summary {
                    old(self).metrics@.errors
                } else {
                    errors_after(
                        old(self).metrics@.errors,
                        raw_request@.method,
                        raw_request@.name,
                        raw_request@.error,
                        1,
                    )
                },
                ..old(self).metrics@
            }),
    {
        // If the error summary is disabled, return immediately without collecting errors.
        if self.configuration.no_error_summary {
            return;
        }
        self.add_error(
            raw_request.method,
            raw_request.name.as_str(),
            raw_request.error.as_str(),
            1,
        );
    }
}

/// The name under which a request is aggregated: its method and its name.
pub open spec fn request_key(request: RequestModel) -> Seq<char> {
    request.method.text() + " "@ + request.name
}

/// The aggregate that is kept for a request: that of no request, if there is none.
pub open spec fn kept_request(
    requests: Map<Seq<char>, RequestAggregateModel>,
    request: RequestModel,
) -> RequestAggregateModel {
    if requests.contains_key(request_key(request)) {
        requests[request_key(request)]
    } else {
        RequestAggregateModel::empty(request.name, request.method, 0)
    }
}

impl RequestAggregateModel {
    /// The aggregate after a request. An update of an earlier request moves that one from the
    /// failed to the successful ones, or back; any other request is counted.
    pub open spec fn with_request(self, request: RequestModel, status_codes: bool) -> Self {
        if request.update {
            RequestAggregateModel {
                success_count: self.success_count + if request.success {
                    1int
                } else {
                    -1
                },
                fail_count: self.fail_count + if request.success {
                    -1int
                } else {
                    1
                },
                ..self
            }
        } else {
            let timed = self.with_response_time(request.response_time);
            let coded = if status_codes {
                timed.with_status_code(request.status_code)
            } else {
                timed
            };
            RequestAggregateModel {
                success_count: coded.success_count + if request.success {
                    1int
                } else {
                    0
                },
                fail_count: coded.fail_count + if request.success {
                    0int
                } else {
                    1
                },
                ..coded
            }
        }
    }

    /// The counters have room for a request, and an update finds what it moves.
    pub open spec fn has_room_for_request(self, request: RequestModel, status_codes: bool) -> bool {
        &&& request.success ==> self.success_count < usize::MAX
        &&& !request.success ==> self.fail_count < usize::MAX
        &&& if request.update {
            &&& request.success ==> self.fail_count > 0
            &&& !request.success ==> self.success_count > 0
        } else {
            &&& self.has_room_for_time(request.response_time)
            &&& status_codes ==> code_count(self.status_code_counts, request.status_code)
                < usize::MAX
        }
    }
}

/// The request causes an error that is tracked.
pub open spec fn tracks_error(configuration: GooseConfiguration, request: RequestModel) -> bool {
    request.error.len() > 0 && !configuration.no_error_summary
}

/// The metrics after a request.
pub open spec fn after_request(
    metrics: MetricsModel,
    configuration: GooseConfiguration,
    request: RequestModel,
) -> MetricsModel {
    MetricsModel {
        errors: if tracks_error(configuration, request) {
            errors_after(metrics.errors, request.method, request.name, request.error, 1)
        } else {
            metrics.errors
        },
        requests: metrics.requests.insert(
            request_key(request),
            kept_request(metrics.requests, request).with_request(
                request,
                configuration.status_codes,
            ),
        ),
        ..metrics
    }
}

/// The metrics have room for a request.
pub open spec fn accepts_request(
    metrics: MetricsModel,
    configuration: GooseConfiguration,
    request: RequestModel,
) -> bool {
    &&& tracks_error(configuration, request) ==> error_fits(
        metrics.errors,
        request.method,
        request.name,
        request.error,
        1,
    )
    &&& kept_request(metrics.requests, request).has_room_for_request(
        request,
        configuration.status_codes,
    )
}

/// The metrics after a task was run.
pub open spec fn after_task(metrics: MetricsModel, task: TaskModel) -> MetricsModel {
    let (set, index) = (task.taskset_index as int, task.task_index as int);
    MetricsModel {
        tasks: metrics.tasks.update(
            set,
            metrics.tasks[set].update(
                index,
                metrics.tasks[set][index].with_run(task.run_time, task.success),
            ),
        ),
        ..metrics
    }
}

/// The task is known, and its counters have room for one more run.
pub open spec fn accepts_task(metrics: MetricsModel, task: TaskModel) -> bool {
    &&& task.taskset_index < metrics.tasks.len()
    &&& task.task_index < metrics.tasks[task.taskset_index as int].len()
    &&& metrics.tasks[task.taskset_index as int][task.task_index as int].has_room_for_run(
        task.run_time,
        task.success,
    )
}

/// The metrics after a metric was received.
pub open spec fn after_metric(
    metrics: MetricsModel,
    configuration: GooseConfiguration,
    metric: MetricModel,
) -> MetricsModel {
    match metric {
        MetricModel::Request(request) => after_request(metrics, configuration, request),
        MetricModel::Task(task) => after_task(metrics, task),
        MetricModel::Error(error) => MetricsModel {
            errors: errors_after(
                metrics.errors,
                error.method,
                error.name,
                error.error,
                error.occurrences,
            ),
            ..metrics
        },
    }
}

/// The metrics have room for a metric.
pub open spec fn accepts_metric(
    metrics: MetricsModel,
    configuration: GooseConfiguration,
    metric: MetricModel,
) -> bool {
    match metric {
        MetricModel::Request(request) => accepts_request(metrics, configuration, request),
        MetricModel::Task(task) => accepts_task(metrics, task),
        MetricModel::Error(error) => error_fits(
            metrics.errors,
            error.method,
            error.name,
            error.error,
            error.occurrences,
        ),
    }
}

/// Writes the name under which a request is aggregated.
fn request_key_text(request: &GooseRequestMetric) -> (r: String)
    ensures
        r@ == request_key(request@),
{
    request.method.as_str().to_string().concat(" ").concat(request.name.as_str())
}

impl GooseRequestAggregateMetric {
    /// Counts a request, or moves an earlier one that it updates.
    fn merge_request(&mut self, raw_request: &GooseRequestMetric, status_codes: bool)
        requires
            old(self)@.has_room_for_request(raw_request@, status_codes),
        ensures
            final(self)@ == old(self)@.with_request(raw_request@, status_codes),
    {
        if raw_request.update {
            // Handle a metrics update.
            if raw_request.success {
                self.success_count += 1;
                self.fail_count -= 1;
            } else {
                self.success_count -= 1;
                self.fail_count += 1;
            }
        } else {
            // Store a new metric.
            self.set_response_time(raw_request.response_time);
            if status_codes {
                self.set_status_code(raw_request.status_code);
            }
            if raw_request.success {
                self.success_count += 1;
            } else {
                self.fail_count += 1;
            }
        }
    }
}

impl GooseAttack {
    /// Aggregates a request, and counts the error that it caused.
    pub fn record_request(&mut self, raw_request: &GooseRequestMetric)
        requires
            accepts_request(old(self).metrics@, old(self).configuration, raw_request@),
        ensures
            final(self).configuration == old(self).configuration,
            final(self).metrics@ == after_request(
                old(self).metrics@,
                old(self).configuration,
                raw_request@,
            ),
    {
        // If there was an error, store it.
        if raw_request.error.as_str().unicode_len() > 0 {
            self.record_error(raw_request);
        }
        let ghost before = self.metrics@;
        let key = request_key_text(raw_request);
        let mut merge_request = match self.metrics.requests.remove(key.as_str()) {
            Some(m) => m,
            None => GooseRequestAggregateMetric::new(
                raw_request.name.as_str(),
                raw_request.method,
                0,
            ),
        };
        merge_request.merge_request(raw_request, self.configuration.status_codes);
        self.metrics.requests.insert(key, merge_request);
        assert(self.metrics@.requests =~= before.requests.insert(
            request_key(raw_request@),
            kept_request(before.requests, raw_request@).with_request(
                raw_request@,
                self.configuration.status_codes,
            ),
        ));
        assert(self.metrics@ =~= after_request(
            old(self).metrics@,
            old(self).configuration,
            raw_request@,
        ));
    }

    /// Counts one more run of a task.
    pub fn record_task(&mut self, raw_task: &GooseTaskMetric)
        requires
            accepts_task(old(self).metrics@, raw_task@),
        ensures
            final(self).configuration == old(self).configuration,
            final(self).metrics@ == after_task(old(self).metrics@, raw_task@),
    {
        let ghost before = self.metrics.tasks@;
        self.metrics.tasks[raw_task.taskset_index][raw_task.task_index].set_time(
            raw_task.run_time,
            raw_task.success,
        );
        proof {
            let expected = after_task(old(self).metrics@, raw_task@).tasks;
            let (set, index) = (raw_task.taskset_index as int, raw_task.task_index as int);
            assert forall|i: int| 0 <= i < before.len() implies #[trigger] self.metrics@.tasks[i]
                == expected[i] by {
                assert(task_models(before[set]@)[index] == before[set]@[index]@);
                if i == set {
                    assert(self.metrics@.tasks[i] =~= expected[i]);
                } else {
                    assert(self.metrics.tasks@[i] == before[i]);
                }
            }
            assert(self.metrics@.tasks =~= expected);
        }
    }
}

impl GooseRequestAggregateMetric {
    /// Whether the counters have room for a request, and an update finds what it moves.
    fn has_room_for(&self, raw_request: &GooseRequestMetric, status_codes: bool) -> (r: bool)
        ensures
            r == self@.has_room_for_request(raw_request@, status_codes),
    {
        if raw_request.success && self.success_count == usize::MAX {
            return false;
        }
        if !raw_request.success && self.fail_count == usize::MAX {
            return false;
        }
        if raw_request.update {
            return if raw_request.success {
                self.fail_count > 0
            } else {
                self.success_count > 0
            };
        }
        let time: usize = #[verifier::truncate]
        (raw_request.response_time as usize);
        let seen: usize = match self.response_times.get(
            &rounded_response_time(raw_request.response_time),
        ) {
            Some(c) => *c,
            None => 0,
        };
        let returned: usize = match self.status_code_counts.get(&raw_request.status_code) {
            Some(c) => *c,
            None => 0,
        };
        time <= usize::MAX - self.total_response_time && self.response_time_counter < usize::MAX
            && seen < usize::MAX && (!status_codes || returned < usize::MAX)
    }
}

impl GooseTaskAggregateMetric {
    /// Whether the counters have room for one more run.
    fn has_room_for(&self, run_time: u64, success: bool) -> (r: bool)
        ensures
            r == self@.has_room_for_run(run_time, success),
    {
        let time: usize = #[verifier::truncate]
        (run_time as usize);
        let seen: usize = match self.times.get(&rounded_task_time(run_time)) {
            Some(c) => *c,
            None => 0,
        };
        time <= usize::MAX - self.total_time && self.counter < usize::MAX && seen < usize::MAX
            && if success {
            self.success_count < usize::MAX
        } else {
            self.fail_count < usize::MAX
        }
    }
}

impl GooseAttack {
    /// Whether the counter of an error has room for `count` more.
    fn error_fits(&self, method: GooseMethod, name: &str, error: &str, count: usize) -> (r: bool)
        ensures
            r == error_fits(self.metrics@.errors, method, name@, error@, count as int),
    {
        match self.metrics.errors.get(error_key_text(error, method, name).as_str()) {
            Some(m) => count <= usize::MAX - m.occurrences,
            None => true,
        }
    }

    /// Whether the metrics have room for a metric. A task has to be known, and an update has to
    /// find the request that it moves.
    pub fn accepts(&self, metric: &GooseMetric) -> (r: bool)
        ensures
            r == accepts_metric(self.metrics@, self.configuration, metric@),
    {
        match metric {
            GooseMetric::Request(raw_request) => {
                if raw_request.error.as_str().unicode_len() > 0
                    && !self.configuration.no_error_summary && !self.error_fits(
                    raw_request.method,
                    raw_request.name.as_str(),
                    raw_request.error.as_str(),
                    1,
                ) {
                    return false;
                }
                match self.metrics.requests.get(request_key_text(raw_request).as_str()) {
                    Some(m) => m.has_room_for(raw_request, self.configuration.status_codes),
                    None => GooseRequestAggregateMetric::new(
                        raw_request.name.as_str(),
                        raw_request.method,
                        0,
                    ).has_room_for(raw_request, self.configuration.status_codes),
                }
            },
            GooseMetric::Task(raw_task) => {
                let (set, index): (usize, usize) = (raw_task.taskset_index, raw_task.task_index);
                if set >= self.metrics.tasks.len() {
                    return false;
                }
                assert(self.metrics@.tasks[set as int] == task_models(
                    self.metrics.tasks@[set as int]@,
                ));
                index < self.metrics.tasks[set].len() && self.metrics.tasks[set][index].has_room_for(
                    raw_task.run_time,
                    raw_task.success,
                )
            },
            GooseMetric::Error(raw_error) => self.error_fits(
                raw_error.method,
                raw_error.name.as_str(),
                raw_error.error.as_str(),
                raw_error.occurrences,
            ),
        }
    }

    /// Aggregates a metric.
    pub fn record_metric(&mut self, metric: &GooseMetric)
        requires
            accepts_metric(old(self).metrics@, old(self).configuration, metric@),
        ensures
            final(self).configuration == old(self).configuration,
            final(self).metrics@ == after_metric(
                old(self).metrics@,
                old(self).configuration,
                metric@,
            ),
    {
        match metric {
            GooseMetric::Request(raw_request) => self.record_request(raw_request),
            GooseMetric::Task(raw_task) => self.record_task(raw_task),
            GooseMetric::Error(raw_error) => self.add_error(
                raw_error.method,
                raw_error.name.as_str(),
                raw_error.error.as_str(),
                raw_error.occurrences,
            ),
        }
    }
}

} // verus!
