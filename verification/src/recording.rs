//! What receiving metrics comes to, told by the metrics that were received.

use crate::attack::{accepts_metric, after_metric};
use crate::consistency::{accepts_metrics, lemma_code_at_most_all};
use crate::error::{error_key, ErrorModel};
use crate::goose::{GooseConfiguration, GooseMethod};
use crate::metrics::{MetricModel, MetricsModel};
use crate::receive::{
    after_metrics, named_format, next_action, next_receiver, EventModel, LogFormat, ReceiveAction,
    Receiver,
};
use crate::request::{code_count, response_bucket};
use crate::sums::total_of;
use crate::task::task_bucket;
use crate::times::{count_of, lemma_count_at_most_all};
use vstd::prelude::*;

verus! {

/// Methods are written in capital letters.
pub proof fn methods_are_written_in_capitals()
    ensures
        GooseMethod::Delete.text() == seq!['D', 'E', 'L', 'E', 'T', 'E'],
        GooseMethod::Get.text() == seq!['G', 'E', 'T'],
        GooseMethod::Head.text() == seq!['H', 'E', 'A', 'D'],
        GooseMethod::Patch.text() == seq!['P', 'A', 'T', 'C', 'H'],
        GooseMethod::Post.text() == seq!['P', 'O', 'S', 'T'],
        GooseMethod::Put.text() == seq!['P', 'U', 'T'],
{
    reveal_strlit("DELETE");
    reveal_strlit("GET");
    reveal_strlit("HEAD");
    reveal_strlit("PATCH");
    reveal_strlit("POST");
    reveal_strlit("PUT");
    assert(GooseMethod::Delete.text() =~= seq!['D', 'E', 'L', 'E', 'T', 'E']);
    assert(GooseMethod::Get.text() =~= seq!['G', 'E', 'T']);
    assert(GooseMethod::Head.text() =~= seq!['H', 'E', 'A', 'D']);
    assert(GooseMethod::Patch.text() =~= seq!['P', 'A', 'T', 'C', 'H']);
    assert(GooseMethod::Post.text() =~= seq!['P', 'O', 'S', 'T']);
    assert(GooseMethod::Put.text() =~= seq!['P', 'U', 'T']);
}

/// Different methods are written differently, and none of them with a dot.
pub proof fn methods_are_written_differently(a: GooseMethod, b: GooseMethod)
    ensures
        a.text() == b.text() ==> a == b,
        !a.text().contains('.'),
        a.text().len() > 0,
{
    methods_are_written_in_capitals();
    if a.text() == b.text() {
        assert(a.text().len() == b.text().len());
        assert(a.text()[0] == b.text()[0]);
        assert(a.text()[1] == b.text()[1]);
    }
}

/// A request is aggregated under its method, a space and its name, and only there. If it is no
/// update it is one more request with its response time and, where these are counted, its status
/// code; and only its success flag decides whether it is one more success or one more failure. An
/// update moves one request to the side that its success flag names. The first request under a name
/// gives the aggregate its path and its method.
pub proof fn request_changes_its_counters(
    metrics: MetricsModel,
    configuration: GooseConfiguration,
    metric: MetricModel,
    name: Seq<char>,
)
    requires
        metric is Request,
        accepts_metric(metrics, configuration, metric),
    ensures
        ({
            let request = metric->Request_0;
            let new = after_metric(metrics, configuration, metric).requests;
            let old = metrics.requests;
            let counts = !request.update;
            let one = if counts {
                1int
            } else {
                0
            };
            if name != request.method.text() + seq![' '] + request.name {
                new.contains_key(name) == old.contains_key(name) && new[name] == old[name]
            } else {
                let first = !old.contains_key(name);
                let (a, b) = (new[name], old[name]);
                &&& new.contains_key(name)
                &&& a.success_count - (if first {
                    0
                } else {
                    b.success_count
                }) == if request.success {
                    1int
                } else if counts {
                    0
                } else {
                    -1
                }
                &&& a.fail_count - (if first {
                    0
                } else {
                    b.fail_count
                }) == if !request.success {
                    1int
                } else if counts {
                    0
                } else {
                    -1
                }
                &&& a.response_time_counter - (if first {
                    0
                } else {
                    b.response_time_counter
                }) == one
                &&& a.total_response_time - (if first {
                    0
                } else {
                    b.total_response_time
                }) == one * (request.response_time as usize)
                &&& forall|time: usize| #[trigger]
                    count_of(a.response_times, time) - (if first {
                        0
                    } else {
                        count_of(b.response_times, time) as int
                    }) == if counts && time == response_bucket(request.response_time) {
                        1int
                    } else {
                        0
                    }
                &&& forall|code: u16| #[trigger]
                    code_count(a.status_code_counts, code) - (if first {
                        0
                    } else {
                        code_count(b.status_code_counts, code) as int
                    }) == if counts && configuration.status_codes && code == request.status_code {
                        1int
                    } else {
                        0
                    }
                &&& counts ==> a.max_response_time >= (request.response_time as usize)
                &&& counts ==> a.min_response_time <= (request.response_time as usize)
                &&& a.max_response_time == (request.response_time as usize) && counts || (!first
                    && a.max_response_time == b.max_response_time) || (first
                    && a.max_response_time == 0)
                &&& a.min_response_time == (request.response_time as usize) && counts || (!first
                    && a.min_response_time == b.min_response_time) || (first
                    && a.min_response_time == 0)
                &&& !first ==> a.max_response_time >= b.max_response_time
                &&& !first && b.response_time_counter != 0 ==> a.min_response_time
                    <= b.min_response_time
                &&& (first || b.response_time_counter == 0) && counts ==> a.min_response_time
                    == (request.response_time as usize)
                &&& !first && !counts ==> a.max_response_time == b.max_response_time
                    && a.min_response_time == b.min_response_time
                &&& first ==> a.path == request.name && a.method == request.method
                    && a.load_test_hash == 0
                &&& !first ==> a.path == b.path && a.method == b.method && a.load_test_hash
                    == b.load_test_hash
            }
        }),
{
    let request = metric->Request_0;
    reveal_strlit(" ");
    assert(" "@ =~= seq![' ']);
}

/// The metric is a request under `name` that is an update or not, and a success or not.
pub open spec fn is_request(name: Seq<char>, update: bool, success: bool) -> spec_fn(
    MetricModel,
) -> bool {
    |metric: MetricModel|
        metric matches MetricModel::Request(request) && request.update == update && request.success
            == success && name == request.method.text() + seq![' '] + request.name
}

pub(crate) proof fn lemma_filter_first<T>(items: Seq<T>, p: spec_fn(T) -> bool)
    requires
        items.len() > 0,
    ensures
        items.filter(p).len() == items.drop_first().filter(p).len() + if p(items[0]) {
            1int
        } else {
            0
        },
{
    let first = seq![items[0]];
    assert(items =~= first + items.drop_first());
    Seq::<T>::filter_distributes_over_add(first, items.drop_first(), p);
    reveal_with_fuel(Seq::filter, 2);
    assert(first.drop_last() =~= Seq::empty());
    assert(first.filter(p).len() == if p(items[0]) {
        1int
    } else {
        0
    });
}

/// The successes kept under a name are the successful requests under that name, each counted once,
/// with those that updates moved there or away; and the failures are those that were not
/// successful, likewise.
pub proof fn successes_and_failures_are_counted(
    metrics: MetricsModel,
    configuration: GooseConfiguration,
    waiting: Seq<MetricModel>,
    name: Seq<char>,
)
    requires
        accepts_metrics(metrics, configuration, waiting),
    ensures
        ({
            let (old, new) = (
                metrics.requests,
                after_metrics(metrics, configuration, waiting).requests,
            );
            let made = |update: bool, success: bool|
                waiting.filter(is_request(name, update, success)).len() as int;
            &&& new.contains_key(name) <==> old.contains_key(name) || exists|i: int|
                0 <= i < waiting.len() && (#[trigger] waiting[i] matches MetricModel::Request(request)
                    && name == request.method.text() + seq![' '] + request.name)
            &&& new.contains_key(name) ==> new[name].success_count == (if old.contains_key(name) {
                old[name].success_count
            } else {
                0
            }) + made(false, true) + made(true, true) - made(true, false)
            &&& new.contains_key(name) ==> new[name].fail_count == (if old.contains_key(name) {
                old[name].fail_count
            } else {
                0
            }) + made(false, false) + made(true, false) - made(true, true)
        }),
    decreases waiting.len(),
{
    if waiting.len() == 0 {
        reveal(Seq::filter);
    } else {
        let (first, rest) = (waiting[0], waiting.drop_first());
        let after = after_metric(metrics, configuration, first);
        successes_and_failures_are_counted(after, configuration, rest, name);
        lemma_filter_first(waiting, is_request(name, false, true));
        lemma_filter_first(waiting, is_request(name, false, false));
        lemma_filter_first(waiting, is_request(name, true, true));
        lemma_filter_first(waiting, is_request(name, true, false));
        if first is Request {
            request_changes_its_counters(metrics, configuration, first, name);
        }
        if exists|i: int|
            0 <= i < waiting.len() && (#[trigger] waiting[i] matches MetricModel::Request(request)
                && name == request.method.text() + seq![' '] + request.name) {
            let i = choose|i: int|
                0 <= i < waiting.len() && (#[trigger] waiting[i] matches MetricModel::Request(request)
                    && name == request.method.text() + seq![' '] + request.name);
            if i > 0 {
                assert(rest[i - 1] == waiting[i]);
            }
        }
        if exists|i: int|
            0 <= i < rest.len() && (#[trigger] rest[i] matches MetricModel::Request(request) && name
                == request.method.text() + seq![' '] + request.name) {
            let i = choose|i: int|
                0 <= i < rest.len() && (#[trigger] rest[i] matches MetricModel::Request(request)
                    && name == request.method.text() + seq![' '] + request.name);
            assert(waiting[i + 1] == rest[i]);
        }
    }
}

/// A run is counted for its task: one more run with its time, that is a success or a failure as it
/// says; and for no other task.
pub proof fn run_changes_its_counters(
    metrics: MetricsModel,
    configuration: GooseConfiguration,
    metric: MetricModel,
    set: int,
    index: int,
)
    requires
        metric is Task,
        accepts_metric(metrics, configuration, metric),
        0 <= set < metrics.tasks.len(),
        0 <= index < metrics.tasks[set].len(),
    ensures
        ({
            let run = metric->Task_0;
            let new = after_metric(metrics, configuration, metric).tasks;
            let time = run.run_time as usize as int;
            let (a, b) = (new[set][index], metrics.tasks[set][index]);
            if run.taskset_index != set || run.task_index != index {
                a == b
            } else {
                &&& a.counter == b.counter + 1
                &&& a.success_count - b.success_count == if run.success {
                    1int
                } else {
                    0
                }
                &&& a.fail_count - b.fail_count == if run.success {
                    0int
                } else {
                    1
                }
                &&& a.total_time - b.total_time == time
                &&& a.max_time >= time && a.max_time >= b.max_time
                &&& a.max_time == time || a.max_time == b.max_time
                &&& a.min_time <= time
                &&& b.counter != 0 ==> a.min_time <= b.min_time
                &&& b.counter == 0 ==> a.min_time == time
                &&& a.min_time == time || a.min_time == b.min_time
                &&& forall|t: usize| #[trigger]
                    count_of(a.times, t) - count_of(b.times, t) == if t == task_bucket(
                        run.run_time,
                    ) {
                        1int
                    } else {
                        0
                    }
                &&& a.taskset_index == b.taskset_index
                &&& a.taskset_name == b.taskset_name
                &&& a.task_index == b.task_index
                &&& a.task_name == b.task_name
            }
        }),
{
}

/// A key is the error, the method and the name, with a dot after the error and after the method.
pub proof fn error_keys_hold_their_parts(
    error: Seq<char>,
    method: GooseMethod,
    name: Seq<char>,
)
    ensures
        ({
            let key = error_key(error, method, name);
            let (m, e) = (method.text().len() as int, error.len() as int);
            &&& key.len() == e + m + name.len() + 2
            &&& key.take(e) == error
            &&& key[e] == '.'
            &&& key.subrange(e + 1, e + 1 + m) == method.text()
            &&& key[e + 1 + m] == '.'
            &&& key.skip(e + m + 2) == name
        }),
{
    reveal_strlit(".");
    let key = error_key(error, method, name);
    let (m, e) = (method.text().len() as int, error.len() as int);
    assert(key.take(e) =~= error);
    assert(key.subrange(e + 1, e + 1 + m) =~= method.text());
    assert(key.skip(e + m + 2) =~= name);
}

/// Errors are kept apart where their methods differ, whatever their text and name; and errors whose
/// text and name hold no dot are kept apart where anything of them differs.
pub proof fn different_errors_have_different_keys(
    a: (Seq<char>, GooseMethod, Seq<char>),
    b: (Seq<char>, GooseMethod, Seq<char>),
)
    ensures
        a.0 == b.0 && a.2 == b.2 && a.1 != b.1 ==> error_key(a.0, a.1, a.2) != error_key(
            b.0,
            b.1,
            b.2,
        ),
        !a.0.contains('.') && !a.2.contains('.') && !b.0.contains('.') && !b.2.contains('.') && a
            != b ==> error_key(a.0, a.1, a.2) != error_key(b.0, b.1, b.2),
{
    error_keys_hold_their_parts(a.0, a.1, a.2);
    error_keys_hold_their_parts(b.0, b.1, b.2);
    methods_are_written_differently(a.1, b.1);
    methods_are_written_differently(b.1, a.1);
    let (x, y) = (error_key(a.0, a.1, a.2), error_key(b.0, b.1, b.2));
    let (m, n) = (a.1.text(), b.1.text());
    if x == y {
        if a.0 == b.0 && a.2 == b.2 {
            assert(m.len() == n.len());
            assert(a.1 == b.1);
        }
        if !a.0.contains('.') && !a.2.contains('.') && !b.0.contains('.') && !b.2.contains('.') {
            if a.0.len() < b.0.len() {
                assert(y.take(b.0.len() as int)[a.0.len() as int] == '.');
                assert(b.0[a.0.len() as int] == '.');
            }
            if b.0.len() < a.0.len() {
                assert(x.take(a.0.len() as int)[b.0.len() as int] == '.');
                assert(a.0[b.0.len() as int] == '.');
            }
            assert(a.0 == b.0);
            let e = a.0.len() as int;
            if m.len() < n.len() {
                assert(y.subrange(e + 1, e + 1 + n.len())[m.len() as int] == '.');
                assert(n[m.len() as int] == '.');
            }
            if n.len() < m.len() {
                assert(x.subrange(e + 1, e + 1 + m.len())[n.len() as int] == '.');
                assert(m[n.len() as int] == '.');
            }
            assert(m == n);
            assert(a.2 == b.2);
        }
    }
}

/// How often a metric reports an error with just this method, name and text. A request reports the
/// error that it caused, unless the summary of errors is disabled.
pub open spec fn reports(
    configuration: GooseConfiguration,
    method: GooseMethod,
    name: Seq<char>,
    error: Seq<char>,
) -> spec_fn(MetricModel) -> int {
    |metric: MetricModel|
        match metric {
            MetricModel::Request(request) => if request.error.len() > 0
                && !configuration.no_error_summary && request.method == method && request.name
                == name && request.error == error {
                1int
            } else {
                0
            },
            MetricModel::Error(report) => if report.method == method && report.name == name
                && report.error == error {
                report.occurrences
            } else {
                0
            },
            MetricModel::Task(_) => 0,
        }
}

/// The metric reports an error with just this method, name and text.
pub open spec fn is_report_of(
    configuration: GooseConfiguration,
    metric: MetricModel,
    method: GooseMethod,
    name: Seq<char>,
    error: Seq<char>,
) -> bool {
    match metric {
        MetricModel::Request(request) => request.error.len() > 0 && !configuration.no_error_summary
            && request.method == method && request.name == name && request.error == error,
        MetricModel::Error(report) => report.method == method && report.name == name && report.error
            == error,
        MetricModel::Task(_) => false,
    }
}

/// Neither the name nor the text of the error that the metric reports holds a dot.
pub open spec fn reports_without_dot(metric: MetricModel) -> bool {
    match metric {
        MetricModel::Request(request) => !request.name.contains('.') && !request.error.contains('.'),
        MetricModel::Error(report) => !report.name.contains('.') && !report.error.contains('.'),
        MetricModel::Task(_) => true,
    }
}

spec fn tidy(errors: Map<Seq<char>, ErrorModel>) -> bool {
    forall|key: Seq<char>| #[trigger]
        errors.contains_key(key) ==> {
            let kept = errors[key];
            key == error_key(kept.error, kept.method, kept.name) && !kept.name.contains('.')
                && !kept.error.contains('.')
        }
}

proof fn lemma_reports_counted(
    metrics: MetricsModel,
    configuration: GooseConfiguration,
    waiting: Seq<MetricModel>,
    method: GooseMethod,
    name: Seq<char>,
    error: Seq<char>,
)
    requires
        tidy(metrics.errors),
        forall|i: int| 0 <= i < waiting.len() ==> reports_without_dot(#[trigger] waiting[i]),
        !name.contains('.'),
        !error.contains('.'),
    ensures
        ({
            let key = error_key(error, method, name);
            let (old, new) = (
                metrics.errors,
                after_metrics(metrics, configuration, waiting).errors,
            );
            &&& tidy(new)
            &&& new.contains_key(key) <==> old.contains_key(key) || exists|i: int|
                0 <= i < waiting.len() && is_report_of(
                    configuration,
                    #[trigger] waiting[i],
                    method,
                    name,
                    error,
                )
            &&& new.contains_key(key) ==> new[key].occurrences == (if old.contains_key(key) {
                old[key].occurrences
            } else {
                0
            }) + total_of(waiting.map_values(reports(configuration, method, name, error)))
            &&& !new.contains_key(key) ==> total_of(
                waiting.map_values(reports(configuration, method, name, error)),
            ) == 0
        }),
    decreases waiting.len(),
{
    let count = reports(configuration, method, name, error);
    if waiting.len() > 0 {
        let (first, rest) = (waiting[0], waiting.drop_first());
        let after = after_metric(metrics, configuration, first);
        let key = error_key(error, method, name);
        assert(reports_without_dot(first));
        match first {
            MetricModel::Request(r) => {
                different_errors_have_different_keys(
                    (r.error, r.method, r.name),
                    (error, method, name),
                );
            },
            MetricModel::Error(r) => {
                different_errors_have_different_keys(
                    (r.error, r.method, r.name),
                    (error, method, name),
                );
            },
            MetricModel::Task(_) => {},
        }
        assert forall|i: int| 0 <= i < rest.len() implies reports_without_dot(
            #[trigger] rest[i],
        ) by {
            assert(rest[i] == waiting[i + 1]);
        }
        assert(tidy(after.errors));
        lemma_reports_counted(after, configuration, rest, method, name, error);
        assert(waiting.map_values(count).drop_first() =~= rest.map_values(count));
        assert(waiting.map_values(count)[0] == count(first));
        if exists|i: int|
            0 <= i < waiting.len() && is_report_of(
                configuration,
                #[trigger] waiting[i],
                method,
                name,
                error,
            ) {
            let i = choose|i: int|
                0 <= i < waiting.len() && is_report_of(
                    configuration,
                    #[trigger] waiting[i],
                    method,
                    name,
                    error,
                );
            if i > 0 {
                assert(rest[i - 1] == waiting[i]);
            }
        }
        if exists|i: int|
            0 <= i < rest.len() && is_report_of(
                configuration,
                #[trigger] rest[i],
                method,
                name,
                error,
            ) {
            let i = choose|i: int|
                0 <= i < rest.len() && is_report_of(
                    configuration,
                    #[trigger] rest[i],
                    method,
                    name,
                    error,
                );
            assert(waiting[i + 1] == rest[i]);
        }
    }
}

/// Of every error that was reported, told by its method, its name and its text, one is kept, and it
/// says how often exactly this error was reported; nothing else is kept. This is so for errors whose
/// name and text hold no dot.
pub proof fn every_error_is_kept_once(
    metrics: MetricsModel,
    configuration: GooseConfiguration,
    waiting: Seq<MetricModel>,
    method: GooseMethod,
    name: Seq<char>,
    error: Seq<char>,
)
    requires
        metrics.errors == Map::<Seq<char>, ErrorModel>::empty(),
        forall|i: int| 0 <= i < waiting.len() ==> reports_without_dot(#[trigger] waiting[i]),
        !name.contains('.'),
        !error.contains('.'),
    ensures
        ({
            let kept = after_metrics(metrics, configuration, waiting).errors;
            let reported = exists|i: int|
                0 <= i < waiting.len() && is_report_of(
                    configuration,
                    #[trigger] waiting[i],
                    method,
                    name,
                    error,
                );
            let record = ErrorModel {
                method,
                name,
                error,
                occurrences: total_of(
                    waiting.map_values(reports(configuration, method, name, error)),
                ),
            };
            &&& reported <==> exists|key: Seq<char>| #[trigger]
                kept.contains_key(key) && kept[key] == record
            &&& forall|key: Seq<char>| #[trigger]
                kept.contains_key(key) && kept[key].method == method && kept[key].name == name
                    && kept[key].error == error ==> reported && kept[key] == record
            &&& forall|a: Seq<char>, b: Seq<char>| #[trigger]
                kept.contains_key(a) && #[trigger] kept.contains_key(b) && kept[a].method
                    == kept[b].method && kept[a].name == kept[b].name && kept[a].error
                    == kept[b].error ==> a == b
        }),
{
    lemma_reports_counted(metrics, configuration, waiting, method, name, error);
    let key = error_key(error, method, name);
    let kept = after_metrics(metrics, configuration, waiting).errors;
    if kept.contains_key(key) {
        let there = kept[key];
        different_errors_have_different_keys(
            (there.error, there.method, there.name),
            (error, method, name),
        );
    }
}

/// A request that is no update is accepted exactly where one more request can be counted under its
/// name, its response time can be added to the others, and its error, if that is tracked, can be
/// counted once more.
pub proof fn requests_are_accepted(
    metrics: MetricsModel,
    configuration: GooseConfiguration,
    metric: MetricModel,
)
    requires
        metrics.consistent(configuration.status_codes),
        metric is Request,
        !metric->Request_0.update,
    ensures
        ({
            let request = metric->Request_0;
            let name = request.method.text() + seq![' '] + request.name;
            let kept = metrics.requests[name];
            let key = error_key(request.error, request.method, request.name);
            accepts_metric(metrics, configuration, metric) <==> {
                &&& metrics.requests.contains_key(name) ==> kept.response_time_counter < usize::MAX
                    && kept.total_response_time + (request.response_time as usize) <= usize::MAX
                &&& request.error.len() > 0 && !configuration.no_error_summary
                    && metrics.errors.contains_key(key) ==> metrics.errors[key].occurrences
                    < usize::MAX
            }
        }),
{
    let request = metric->Request_0;
    reveal_strlit(" ");
    assert(" "@ =~= seq![' ']);
    let name = request.method.text() + seq![' '] + request.name;
    if metrics.requests.contains_key(name) {
        let kept = metrics.requests[name];
        assert(kept.consistent(configuration.status_codes));
        lemma_count_at_most_all(kept.response_times, response_bucket(request.response_time));
        lemma_code_at_most_all(kept.status_code_counts, request.status_code);
    }
}

/// An update is accepted exactly where there is a request that it moves, the side to which it moves
/// it has room for one more, and its error, if that is tracked, can be counted once more.
pub proof fn updates_are_accepted(
    metrics: MetricsModel,
    configuration: GooseConfiguration,
    metric: MetricModel,
)
    requires
        metric is Request,
        metric->Request_0.update,
    ensures
        ({
            let request = metric->Request_0;
            let name = request.method.text() + seq![' '] + request.name;
            let kept = metrics.requests[name];
            let key = error_key(request.error, request.method, request.name);
            accepts_metric(metrics, configuration, metric) <==> {
                &&& metrics.requests.contains_key(name)
                &&& request.success ==> kept.fail_count > 0 && kept.success_count < usize::MAX
                &&& !request.success ==> kept.success_count > 0 && kept.fail_count < usize::MAX
                &&& request.error.len() > 0 && !configuration.no_error_summary
                    && metrics.errors.contains_key(key) ==> metrics.errors[key].occurrences
                    < usize::MAX
            }
        }),
{
    reveal_strlit(" ");
    assert(" "@ =~= seq![' ']);
}

/// A run is accepted exactly where its task is known, one more run of it can be counted, and its
/// time can be added to the others.
pub proof fn runs_are_accepted(
    metrics: MetricsModel,
    configuration: GooseConfiguration,
    metric: MetricModel,
)
    requires
        metrics.consistent(configuration.status_codes),
        metric is Task,
    ensures
        ({
            let run = metric->Task_0;
            let kept = metrics.tasks[run.taskset_index as int][run.task_index as int];
            accepts_metric(metrics, configuration, metric) <==> {
                &&& run.taskset_index < metrics.tasks.len()
                &&& run.task_index < metrics.tasks[run.taskset_index as int].len()
                &&& kept.counter < usize::MAX
                &&& kept.total_time + (run.run_time as usize) <= usize::MAX
            }
        }),
{
    let run = metric->Task_0;
    if run.taskset_index < metrics.tasks.len() && run.task_index
        < metrics.tasks[run.taskset_index as int].len() {
        let kept = metrics.tasks[run.taskset_index as int][run.task_index as int];
        assert(kept.consistent());
        lemma_count_at_most_all(kept.times, task_bucket(run.run_time));
    }
}

/// Errors that are sent are accepted exactly where they can be added to those that are kept under
/// the same key; they are added whether or not the summary of errors is disabled.
pub proof fn sent_errors_are_added(
    metrics: MetricsModel,
    configuration: GooseConfiguration,
    metric: MetricModel,
    key: Seq<char>,
)
    requires
        metric is Error,
    ensures
        ({
            let sent = metric->Error_0;
            let (old, new) = (
                metrics.errors,
                after_metric(metrics, configuration, metric).errors,
            );
            let before = if old.contains_key(key) {
                old[key].occurrences
            } else {
                0
            };
            if key == error_key(sent.error, sent.method, sent.name) {
                &&& accepts_metric(metrics, configuration, metric) <==> before + sent.occurrences
                    <= usize::MAX
                &&& new.contains_key(key)
                &&& new[key].occurrences == before + sent.occurrences
                &&& !old.contains_key(key) ==> new[key].method == sent.method && new[key].name
                    == sent.name && new[key].error == sent.error
            } else {
                new.contains_key(key) == old.contains_key(key) && new[key] == old[key]
            }
        }),
{
}

/// Requests are logged as JSON, as comma-separated values or raw, as the option says in these
/// words; no other word names a format.
pub proof fn formats_have_their_names(text: Seq<char>)
    ensures
        named_format(text) == Some(LogFormat::Json) <==> text == seq!['j', 's', 'o', 'n'],
        named_format(text) == Some(LogFormat::Csv) <==> text == seq!['c', 's', 'v'],
        named_format(text) == Some(LogFormat::Raw) <==> text == seq!['r', 'a', 'w'],
{
    reveal_strlit("json");
    reveal_strlit("csv");
    reveal_strlit("raw");
    assert("json"@ =~= seq!['j', 's', 'o', 'n']);
    assert("csv"@ =~= seq!['c', 's', 'v']);
    assert("raw"@ =~= seq!['r', 'a', 'w']);
    assert("json"@.len() == 4);
    assert("csv"@[0] == 'c');
    assert("raw"@[0] == 'r');
}

/// Flushing goes on until no metric waits. Otherwise receiving goes on as long as less than 400
/// milliseconds passed. It ends with whether a metric was received, and is told of every metric.
pub proof fn receiving_ends_in_time(receiver: Receiver, metric: MetricModel, ms: u128)
    ensures
        ({
            let received = EventModel::Metric(metric);
            let elapsed = EventModel::Elapsed(ms);
            &&& next_action(receiver, EventModel::Nothing) == ReceiveAction::Finish(
                receiver.received,
            )
            &&& receiver.flush ==> next_action(receiver, received) == ReceiveAction::Receive
            &&& receiver.flush ==> next_action(receiver, elapsed) == ReceiveAction::Receive
            &&& !receiver.flush ==> next_action(receiver, received) == ReceiveAction::ReadTimer
            &&& !receiver.flush && ms < 400 ==> next_action(receiver, elapsed)
                == ReceiveAction::Receive
            &&& !receiver.flush && ms >= 400 ==> next_action(receiver, elapsed)
                == ReceiveAction::Finish(receiver.received)
            &&& next_receiver(receiver, received).received
            &&& next_receiver(receiver, received).flush == receiver.flush
            &&& next_receiver(receiver, elapsed) == receiver
            &&& next_receiver(receiver, EventModel::Nothing) == receiver
        }),
{
}

} // verus!
