//! What the tables show as a whole, and where.

use crate::columns::{joined_parts_stand_in_order, joining_keeps_everything, lemma_joined_split};
use crate::layout::{
    code_line, code_rule, count_line, joined, percentile_line, rule, time_line,
};
use crate::counts::{count_footer, count_rows, table_ratios, CountFigures, TallyModel};
use crate::codes::{
    code_sums_count_every_request, code_total, codes_sum, codes_sum_fits, codes_text, lists_codes,
    listings_hold_every_code_once, shows_codes,
};
use crate::display::{
    code_rows, error_pairs, error_rows, errors_table, is_report, is_status_codes_table, report,
    report_fits, report_joins_its_parts, report_parts, status_code_table, status_codes_fit,
    ReportFigures,
};
use crate::error::ErrorModel;
use crate::figures::Figure;
use crate::metrics::{
    request_codes, request_tallies, request_times, task_tallies, task_times, MetricsModel,
};
use crate::order::{descending, descending_is_sorted, name_order, names_can_be_ordered};
use crate::report::{
    percentile_queries, percentiles_fit, percentiles_table, request_counts_fit, request_ratios,
    requests_table, response_averages, response_times_fit, response_times_table, short_names,
    task_averages, task_blocks, task_counts_fit, task_label, task_labels, task_numbers_fit,
    task_ratios, task_set_line, task_times_fit, task_times_table, tasks_table,
};
use crate::request::{code_count, RequestAggregateModel};
use crate::sheets::tally_sums_count_every_row;
use crate::sums::{total_of, totals_add_up};
use crate::task::TaskAggregateModel;
use crate::text::{decimal, grouped, left_aligned, text_lt, truncated};
use crate::timing::{
    percentile_footer, percentile_rows, table_averages, table_queries, time_footer, time_rows,
    times_sum_fits, TimeModel,
};
use vstd::prelude::*;

verus! {

/// How long the line of a task set is; a set without tasks has none.
pub open spec fn head_len(set: Seq<TaskAggregateModel>) -> int {
    if set.len() > 0 {
        task_set_line(set[0]).len() as int
    } else {
        0
    }
}

/// How long the lines of several task sets are together.
pub open spec fn heads_len(sets: Seq<Seq<TaskAggregateModel>>) -> int {
    total_of(sets.map_values(|set: Seq<TaskAggregateModel>| head_len(set)))
}

proof fn lemma_heads(sets: Seq<Seq<TaskAggregateModel>>)
    requires
        sets.len() > 0,
    ensures
        heads_len(sets) == heads_len(sets.drop_last()) + head_len(sets.last()),
{
    let lens = sets.map_values(|set: Seq<TaskAggregateModel>| head_len(set));
    let rest = sets.drop_last().map_values(|set: Seq<TaskAggregateModel>| head_len(set));
    totals_add_up(rest, rest, head_len(sets.last()));
    assert(lens =~= rest.push(head_len(sets.last())));
}

proof fn lemma_block_len(sets: Seq<Seq<TaskAggregateModel>>, lines: Seq<Seq<char>>)
    requires
        joined(sets).len() <= lines.len(),
    ensures
        task_blocks(sets, lines).len() == joined(lines.take(joined(sets).len() as int)).len()
            + heads_len(sets),
    decreases sets.len(),
{
    let n = joined(sets).len() as int;
    if sets.len() == 0 {
        assert(lines.take(0) =~= Seq::<Seq<char>>::empty());
    } else {
        let rest = sets.drop_last();
        let before = joined(rest).len() as int;
        lemma_block_len(rest, lines);
        lemma_heads(sets);
        let own = lines.subrange(before, n);
        lemma_joined_split(lines.take(before), own);
        assert(lines.take(n) =~= lines.take(before) + own);
        if sets.last().len() == 0 {
            assert(own =~= Seq::<Seq<char>>::empty());
        }
    }
}

proof fn lemma_block_prefix(sets: Seq<Seq<TaskAggregateModel>>, lines: Seq<Seq<char>>, n: int)
    requires
        0 <= n <= sets.len(),
    ensures
        task_blocks(sets.take(n), lines).len() <= task_blocks(sets, lines).len(),
        task_blocks(sets, lines).take(task_blocks(sets.take(n), lines).len() as int)
            == task_blocks(sets.take(n), lines),
    decreases sets.len(),
{
    let whole = task_blocks(sets, lines);
    let part = task_blocks(sets.take(n), lines);
    if n == sets.len() {
        assert(sets.take(n) =~= sets);
        assert(whole.take(whole.len() as int) =~= whole);
    } else {
        let rest = sets.drop_last();
        lemma_block_prefix(rest, lines, n);
        assert(rest.take(n) =~= sets.take(n));
        let shorter = task_blocks(rest, lines);
        assert(whole.take(part.len() as int) =~= shorter.take(part.len() as int));
    }
}

proof fn lemma_joined_len<T>(parts: Seq<Seq<T>>, n: int)
    requires
        0 <= n <= parts.len(),
    ensures
        joined(parts.take(n)).len() <= joined(parts).len(),
{
    lemma_joined_split(parts.take(n), parts.skip(n));
    assert(parts =~= parts.take(n) + parts.skip(n));
}

/// A table of tasks shows the line of every task set that has tasks, and below it the lines of the
/// tasks of that set, in their order: of task `t` of set `s` the line that was written for it, as
/// the next one of all lines. What stands before it are the lines of the tasks and task sets before
/// it. Together the lines of all tasks, each of them once, and the lines of the task sets make up
/// the whole.
pub proof fn lines_stand_below_their_task_set(
    sets: Seq<Seq<TaskAggregateModel>>,
    lines: Seq<Seq<char>>,
    s: int,
    t: int,
)
    requires
        lines.len() == sets.flatten().len(),
        0 <= s < sets.len(),
        0 <= t < sets[s].len(),
    ensures
        ({
            let text = task_blocks(sets, lines);
            let first = sets.take(s).flatten().len() as int;
            let head = task_set_line(sets[s][0]);
            let head_start = lines.take(first).flatten().len() + heads_len(sets.take(s));
            let start = lines.take(first + t).flatten().len() + heads_len(sets.take(s + 1));
            &&& text.len() == lines.flatten().len() + heads_len(sets)
            &&& 0 <= head_start <= head_start + head.len() <= start
            &&& first + t < lines.len()
            &&& start + lines[first + t].len() <= text.len()
            &&& text.subrange(head_start, head_start + head.len()) == head
            &&& t == 0 ==> start == head_start + head.len()
            &&& text.subrange(start, start + lines[first + t].len()) == lines[first + t]
        }),
{
    joining_keeps_everything(sets);
    joining_keeps_everything(lines);
    joining_keeps_everything(sets.take(s));
    let text = task_blocks(sets, lines);
    let first = joined(sets.take(s)).len() as int;
    joining_keeps_everything(lines.take(first));
    joining_keeps_everything(lines.take(first + t));
    let upto = sets.take(s + 1);
    assert(upto.drop_last() =~= sets.take(s));
    assert(upto.last() == sets[s]);
    lemma_joined_len(sets, s + 1);
    lemma_joined_len(sets, s);
    lemma_block_len(sets, lines);
    assert(lines.take(lines.len() as int) =~= lines);
    lemma_block_len(sets.take(s), lines);
    lemma_heads(upto);
    lemma_block_prefix(sets, lines, s + 1);
    let before = task_blocks(sets.take(s), lines);
    let part = task_blocks(upto, lines);
    let head = task_set_line(sets[s][0]);
    let own = lines.subrange(first, first + sets[s].len());
    assert(part == before + (head + joined(own)));
    let head_start = before.len() as int;
    let start = joined(lines.take(first + t)).len() + heads_len(upto);
    lemma_joined_split(lines.take(first), own.take(t));
    assert(lines.take(first + t) =~= lines.take(first) + own.take(t));
    assert(start == head_start + head.len() + joined(own.take(t)).len());
    if t == 0 {
        assert(own.take(0) =~= Seq::<Seq<char>>::empty());
    }
    let line = lines[first + t];
    assert(own[t] == line);
    joined_parts_stand_in_order(own, t);
    joining_keeps_everything(own.take(t));
    let inner = joined(own.take(t)).len() as int;
    assert(joined(own).subrange(inner, inner + line.len()) == line);
    assert(part.subrange(start, start + line.len()) =~= line) by {
        assert forall|j: int| 0 <= j < line.len() implies part[start + j] == line[j] by {
            assert(joined(own).subrange(inner, inner + line.len())[j] == joined(own)[inner + j]);
        }
    }
    assert(part.subrange(head_start, head_start + head.len()) =~= head);
    assert(text.take(part.len() as int) == part);
    lemma_within_prefix(text, part, start, start + line.len());
    lemma_within_prefix(text, part, head_start, head_start + head.len());
}

proof fn lemma_within_prefix(text: Seq<char>, part: Seq<char>, a: int, b: int)
    requires
        part.len() <= text.len(),
        text.take(part.len() as int) == part,
        0 <= a <= b <= part.len(),
    ensures
        text.subrange(a, b) == part.subrange(a, b),
{
    assert(text.subrange(a, b) =~= text.take(part.len() as int).subrange(a, b));
}

/// The task with index `t` of set `s` stands behind all tasks of the sets before.
proof fn lemma_flat_index<T>(sets: Seq<Seq<T>>, s: int, t: int)
    requires
        0 <= s < sets.len(),
        0 <= t < sets[s].len(),
    ensures
        sets.take(s).flatten().len() + t < joined(sets).len(),
        joined(sets)[sets.take(s).flatten().len() + t] == sets[s][t],
{
    joined_parts_stand_in_order(sets, s);
    let start = sets.take(s).flatten().len() as int;
    assert(joined(sets).subrange(start, start + sets[s].len())[t] == joined(sets)[start + t]);
}

/// A task is named by its number, counted from one, and its name, cut to 24 characters; a task set
/// by its number, counted from one, and its name, cut to 60 characters.
pub proof fn tasks_are_named_by_number(task: TaskAggregateModel)
    ensures
        task_label(task) == truncated(
            seq![' ', ' '] + decimal((task.task_index + 1) as nat) + seq![':', ' ']
                + task.task_name,
            24,
        ),
        task_set_line(task) == seq![' '] + left_aligned(
            truncated(
                decimal((task.taskset_index + 1) as nat) + seq![':', ' '] + task.taskset_name,
                60,
            ),
            24,
        ) + seq![' ', '|', '\n'],
{
    reveal_strlit("  ");
    reveal_strlit(": ");
    reveal_strlit(" ");
    reveal_strlit(" |\n");
    assert("  "@ =~= seq![' ', ' ']);
    assert(": "@ =~= seq![':', ' ']);
    assert(" "@ =~= seq![' ']);
    assert(" |\n"@ =~= seq![' ', '|', '\n']);
}

/// The tally of a request.
pub open spec fn tally_of_request(request: RequestAggregateModel) -> TallyModel {
    TallyModel { total: request.success_count + request.fail_count, fail: request.fail_count }
}

/// The tally of a task.
pub open spec fn tally_of_task(task: TaskAggregateModel) -> TallyModel {
    TallyModel { total: task.success_count + task.fail_count, fail: task.fail_count }
}

/// The times of a request.
pub open spec fn times_of_request(request: RequestAggregateModel) -> TimeModel {
    TimeModel {
        times: request.response_times,
        total: request.total_response_time,
        counter: request.response_time_counter,
        min: request.min_response_time,
        max: request.max_response_time,
    }
}

/// The times of a task.
pub open spec fn times_of_task(task: TaskAggregateModel) -> TimeModel {
    TimeModel {
        times: task.times,
        total: task.total_time,
        counter: task.counter,
        min: task.min_time,
        max: task.max_time,
    }
}

/// Requests are listed by increasing order of their names, each of them once, and their tallies,
/// times and status codes are their own.
pub proof fn requests_are_listed_by_name(metrics: MetricsModel, i: int)
    requires
        metrics.requests.dom().finite(),
        0 <= i < metrics.request_names().len(),
    ensures
        ({
            let names = metrics.request_names();
            let rows = metrics.request_rows();
            let request = metrics.requests[names[i]];
            &&& forall|a: int, b: int| 0 <= a < b < names.len() ==> text_lt(names[a], names[b])
            &&& forall|name: Seq<char>| #[trigger]
                names.contains(name) <==> metrics.requests.contains_key(name)
            &&& rows.len() == names.len()
            &&& request_tallies(rows).len() == names.len()
            &&& request_times(rows).len() == names.len()
            &&& request_codes(rows).len() == names.len()
            &&& rows[i] == request
            &&& request_tallies(rows)[i] == tally_of_request(request)
            &&& request_times(rows)[i] == times_of_request(request)
            &&& request_codes(rows)[i] == request.status_code_counts
            &&& short_names(names).len() == names.len()
            &&& short_names(names)[i] == truncated(names[i], 24)
        }),
{
    let names = metrics.request_names();
    names_can_be_ordered(metrics.requests.dom());
    assert forall|name: Seq<char>| #[trigger] names.contains(name)
        <==> metrics.requests.contains_key(name) by {
        assert(names.to_set().contains(name) <==> metrics.requests.dom().contains(name));
    }
}

/// Tasks are listed set by set, and their tallies, times and names in the tables are their own.
pub proof fn tasks_are_listed_by_set(metrics: MetricsModel, s: int, t: int)
    requires
        0 <= s < metrics.tasks.len(),
        0 <= t < metrics.tasks[s].len(),
    ensures
        ({
            let rows = metrics.task_rows();
            let place = metrics.tasks.take(s).flatten().len() + t;
            let task = metrics.tasks[s][t];
            &&& rows == metrics.tasks.flatten()
            &&& place < rows.len()
            &&& task_tallies(rows).len() == rows.len()
            &&& task_times(rows).len() == rows.len()
            &&& task_labels(rows).len() == rows.len()
            &&& rows[place] == task
            &&& task_tallies(rows)[place] == tally_of_task(task)
            &&& task_times(rows)[place] == times_of_task(task)
            &&& task_labels(rows)[place] == task_label(task)
        }),
{
    joining_keeps_everything(metrics.tasks);
    lemma_flat_index(metrics.tasks, s, t);
}

proof fn lemma_titles()
    ensures
        "\n === "@ + "PER REQUEST METRICS"@ + " ===\n"@ == "\n === PER REQUEST METRICS ===\n"@,
        "\n === "@ + "PER TASK METRICS"@ + " ===\n"@ == "\n === PER TASK METRICS ===\n"@,
{
    reveal_strlit("\n === ");
    reveal_strlit(" ===\n");
    reveal_strlit("PER REQUEST METRICS");
    reveal_strlit("PER TASK METRICS");
    reveal_strlit("\n === PER REQUEST METRICS ===\n");
    reveal_strlit("\n === PER TASK METRICS ===\n");
    assert("\n === "@ + "PER REQUEST METRICS"@ + " ===\n"@
        =~= "\n === PER REQUEST METRICS ===\n"@);
    assert("\n === "@ + "PER TASK METRICS"@ + " ===\n"@ =~= "\n === PER TASK METRICS ===\n"@);
}

proof fn lemma_has_requests(metrics: MetricsModel)
    ensures
        metrics.has_requests() <==> exists|name: Seq<char>| metrics.requests.contains_key(name),
{
    if forall|name: Seq<char>| !metrics.requests.contains_key(name) {
        assert(metrics.requests =~= Map::<Seq<char>, RequestAggregateModel>::empty());
    }
}

/// The table of requests and fails is shown exactly where there is a request. It starts with its
/// title and the names of its columns; then comes a line for each request, by increasing order of
/// the names, and what all of them come to.
pub proof fn requests_table_is_laid_out(metrics: MetricsModel, figures: Seq<CountFigures>)
    ensures
        (forall|name: Seq<char>| !metrics.requests.contains_key(name)) ==> requests_table(
            metrics,
            figures,
        ).len() == 0 && request_ratios(metrics).len() == 0,
        (exists|name: Seq<char>| metrics.requests.contains_key(name)) ==> {
            let (names, rows) = (metrics.request_names(), metrics.request_rows());
            &&& requests_table(metrics, figures) == "\n === PER REQUEST METRICS ===\n"@ + rule()
                + count_line("Name"@, "# reqs"@, "# fails"@, "req/s"@, "fail/s"@) + rule()
                + count_rows(short_names(names), request_tallies(rows), figures).flatten()
                + count_footer(request_tallies(rows), figures)
            &&& request_ratios(metrics) == table_ratios(metrics.duration, request_tallies(rows))
        },
{
    lemma_titles();
    lemma_has_requests(metrics);
    joining_keeps_everything(
        count_rows(
            short_names(metrics.request_names()),
            request_tallies(metrics.request_rows()),
            figures,
        ),
    );
}

/// The table of tasks is shown exactly where there is a task set and metrics are displayed. It
/// starts with its title and the names of its columns; then come the tasks set by set, and what all
/// of them come to.
pub proof fn tasks_table_is_laid_out(metrics: MetricsModel, figures: Seq<CountFigures>)
    ensures
        metrics.tasks.len() == 0 || !metrics.display_metrics ==> tasks_table(
            metrics,
            figures,
        ).len() == 0 && task_ratios(metrics).len() == 0,
        metrics.tasks.len() > 0 && metrics.display_metrics ==> {
            let rows = metrics.task_rows();
            &&& tasks_table(metrics, figures) == "\n === PER TASK METRICS ===\n"@ + rule()
                + count_line("Name"@, "# times run"@, "# fails"@, "task/s"@, "fail/s"@) + rule()
                + task_blocks(
                metrics.tasks,
                count_rows(task_labels(rows), task_tallies(rows), figures),
            ) + count_footer(task_tallies(rows), figures)
            &&& task_ratios(metrics) == table_ratios(metrics.duration, task_tallies(rows))
        },
{
    lemma_titles();
}

/// The table of task times is shown where the table of tasks is, and likewise set by set.
pub proof fn task_times_table_is_laid_out(metrics: MetricsModel, averages: Seq<Figure>)
    ensures
        metrics.tasks.len() == 0 || !metrics.display_metrics ==> task_times_table(
            metrics,
            averages,
        ).len() == 0 && task_averages(metrics).len() == 0,
        metrics.tasks.len() > 0 && metrics.display_metrics ==> {
            let rows = metrics.task_rows();
            &&& task_times_table(metrics, averages) == rule() + time_line(
                "Name"@,
                "Avg (ms)"@,
                "Min"@,
                "Max"@,
                "Median"@,
                11,
                10,
            ) + rule() + task_blocks(
                metrics.tasks,
                time_rows(task_labels(rows), task_times(rows), averages),
            ) + time_footer(task_times(rows), averages)
            &&& task_averages(metrics) == table_averages(task_times(rows))
        },
{
}

/// The table of response times is shown exactly where there is a request, with a line for each
/// request, by increasing order of the names, and what all of them come to.
pub proof fn response_times_table_is_laid_out(metrics: MetricsModel, averages: Seq<Figure>)
    ensures
        (forall|name: Seq<char>| !metrics.requests.contains_key(name)) ==> response_times_table(
            metrics,
            averages,
        ).len() == 0 && response_averages(metrics).len() == 0,
        (exists|name: Seq<char>| metrics.requests.contains_key(name)) ==> {
            let (names, rows) = (metrics.request_names(), metrics.request_rows());
            &&& response_times_table(metrics, averages) == rule() + time_line(
                "Name"@,
                "Avg (ms)"@,
                "Min"@,
                "Max"@,
                "Median"@,
                10,
                11,
            ) + rule() + time_rows(short_names(names), request_times(rows), averages).flatten()
                + time_footer(request_times(rows), averages)
            &&& response_averages(metrics) == table_averages(request_times(rows))
        },
{
    lemma_has_requests(metrics);
    joining_keeps_everything(
        time_rows(
            short_names(metrics.request_names()),
            request_times(metrics.request_rows()),
            averages,
        ),
    );
}

/// The table of percentiles is shown of the final metrics only, with its title, the percentages
/// above its columns, a line for each request, by increasing order of the names, and what all of
/// them come to.
pub proof fn percentiles_table_is_laid_out(metrics: MetricsModel, ranks: Seq<usize>)
    ensures
        !metrics.final_metrics ==> percentiles_table(metrics, ranks).len() == 0
            && percentile_queries(metrics).len() == 0,
        metrics.final_metrics ==> {
            let (names, rows) = (metrics.request_names(), metrics.request_rows());
            &&& percentiles_table(metrics, ranks) == rule()
                + " Slowest page load within specified percentile of requests (in ms):\n"@ + rule()
                + percentile_line(
                "Name"@,
                seq!["50%"@, "75%"@, "98%"@, "99%"@, "99.9%"@, "99.99%"@],
            ) + rule() + percentile_rows(short_names(names), request_times(rows), ranks).flatten()
                + percentile_footer(request_times(rows), ranks)
            &&& percentile_queries(metrics) == table_queries(request_times(rows))
        },
{
    joining_keeps_everything(
        percentile_rows(
            short_names(metrics.request_names()),
            request_times(metrics.request_rows()),
            ranks,
        ),
    );
}

/// The tables can be written exactly where what they show can be added up: of the requests, where
/// there are any, how often they were made and how long they took; of the tasks, where they are
/// shown, how often they were run, how long they took, and one to their numbers; and of the status
/// codes, where they are shown, how often each was returned.
pub proof fn tables_fit_where_their_sums_do(metrics: MetricsModel)
    ensures
        ({
            let (requests, tasks) = (metrics.request_rows(), metrics.task_rows());
            let some = exists|name: Seq<char>| metrics.requests.contains_key(name);
            let numbered = (forall|s: int, t: int|
                0 <= s < metrics.tasks.len() && 0 <= t < metrics.tasks[s].len()
                    ==> (#[trigger] metrics.tasks[s][t]).task_index < usize::MAX && (t == 0
                    ==> metrics.tasks[s][t].taskset_index < usize::MAX));
            let displayed = metrics.tasks.len() > 0 && metrics.display_metrics;
            &&& request_counts_fit(metrics) <==> (some ==> total_of(
                request_tallies(requests).map_values(|t: TallyModel| t.total),
            ) <= usize::MAX)
            &&& response_times_fit(metrics) <==> (some ==> times_sum_fits(request_times(requests)))
            &&& percentiles_fit(metrics) <==> (metrics.final_metrics ==> times_sum_fits(
                request_times(requests),
            ))
            &&& task_counts_fit(metrics) <==> (displayed ==> numbered && total_of(
                task_tallies(tasks).map_values(|t: TallyModel| t.total),
            ) <= usize::MAX)
            &&& task_times_fit(metrics) <==> (displayed ==> numbered && times_sum_fits(
                task_times(tasks),
            ))
            &&& status_codes_fit(metrics) <==> (metrics.display_status_codes ==> codes_sum_fits(
                request_codes(requests),
            ))
            &&& report_fits(metrics) <==> request_counts_fit(metrics) && response_times_fit(metrics)
                && percentiles_fit(metrics) && task_counts_fit(metrics) && task_times_fit(metrics)
                && status_codes_fit(metrics)
        }),
{
    lemma_has_requests(metrics);
    tally_sums_count_every_row(request_tallies(metrics.request_rows()));
    tally_sums_count_every_row(task_tallies(metrics.task_rows()));
    lemma_numbers_fit(metrics);
}

proof fn lemma_numbers_fit(metrics: MetricsModel)
    ensures
        task_numbers_fit(metrics) <==> forall|s: int, t: int|
            0 <= s < metrics.tasks.len() && 0 <= t < metrics.tasks[s].len()
                ==> (#[trigger] metrics.tasks[s][t]).task_index < usize::MAX && (t == 0
                ==> metrics.tasks[s][t].taskset_index < usize::MAX),
{
    let sets = metrics.tasks;
    let rows = metrics.task_rows();
    if task_numbers_fit(metrics) {
        assert forall|s: int, t: int|
            0 <= s < sets.len() && 0 <= t < sets[s].len() implies (#[trigger] sets[s][t]).task_index
            < usize::MAX && (t == 0 ==> sets[s][t].taskset_index < usize::MAX) by {
            lemma_flat_index(sets, s, t);
            let place = sets.take(s).flatten().len() + t;
            assert(rows[place].task_index < usize::MAX);
        }
    }
    if forall|s: int, t: int|
        0 <= s < sets.len() && 0 <= t < sets[s].len() ==> (#[trigger] sets[s][t]).task_index
            < usize::MAX && (t == 0 ==> sets[s][t].taskset_index < usize::MAX) {
        assert forall|s: int| 0 <= s < sets.len() && (#[trigger] sets[s]).len() > 0 implies sets[s][
            0].taskset_index < usize::MAX by {
            assert(sets[s][0].taskset_index < usize::MAX);
        }
        assert forall|i: int| 0 <= i < rows.len() implies (#[trigger] rows[i]).task_index
            < usize::MAX by {
            let (s, t) = lemma_row_found(sets, i);
            assert(sets[s][t].task_index < usize::MAX);
        }
    }
}

proof fn lemma_row_found<T>(sets: Seq<Seq<T>>, i: int) -> (place: (int, int))
    requires
        0 <= i < joined(sets).len(),
    ensures
        0 <= place.0 < sets.len(),
        0 <= place.1 < sets[place.0].len(),
        joined(sets)[i] == sets[place.0][place.1],
    decreases sets.len(),
{
    let rest = sets.drop_last();
    let before = joined(rest).len() as int;
    if i < before {
        let place = lemma_row_found(rest, i);
        assert(rest[place.0] == sets[place.0]);
        place
    } else {
        (sets.len() - 1, i - before)
    }
}

/// The table of status codes names its columns, shows for each name its codes, and below a rule the
/// codes of all of them.
pub proof fn status_code_table_is_laid_out(
    names: Seq<Seq<char>>,
    cells: Seq<Seq<char>>,
    aggregated: Seq<char>,
)
    requires
        cells.len() == names.len(),
    ensures
        status_code_table(names, cells, aggregated) == rule() + code_line("Name"@, "Status codes"@)
            + seq![' ', '\n'] + rule() + Seq::new(
            names.len(),
            |i: int| code_line(names[i], cells[i]).push('\n'),
        ).flatten() + code_rule() + code_line("Aggregated"@, aggregated) + seq![' ', '\n'],
{
    reveal_strlit(" \n");
    reveal_strlit("\n");
    assert(" \n"@ =~= seq![' ', '\n']);
    let lines = Seq::new(names.len(), |i: int| code_line(names[i], cells[i]).push('\n'));
    assert forall|i: int| 0 <= i < names.len() implies #[trigger] code_rows(names, cells)[i]
        == lines[i] by {
        assert(code_line(names[i], cells[i]) + "\n"@ =~= code_line(names[i], cells[i]).push('\n'));
    }
    assert(code_rows(names, cells) =~= lines);
    joining_keeps_everything(lines);
}

/// `text` lists codes: each one that has a count once, with that count, and no other.
pub open spec fn lists_counts(text: Seq<char>, has: spec_fn(u16) -> bool, count: spec_fn(u16) -> int) -> bool {
    exists|listed: Seq<(u16, usize)>|
        {
            &&& listed.no_duplicates()
            &&& forall|code: u16, n: usize| #[trigger]
                listed.contains((code, n)) <==> has(code) && count(code) == n
            &&& text == #[trigger] codes_text(listed)
        }
}

/// Status codes are shown exactly where that is asked for. Then every request, by increasing order
/// of the names, shows how often each of its codes was returned; and at the end it is shown how often
/// each code was returned by all requests together.
pub proof fn status_codes_are_shown(metrics: MetricsModel, text: Seq<char>)
    requires
        status_codes_fit(metrics),
        is_status_codes_table(metrics, text),
    ensures
        !metrics.display_status_codes ==> text.len() == 0,
        metrics.display_status_codes ==> exists|cells: Seq<Seq<char>>, aggregated: Seq<char>|
            {
                let names = metrics.request_names();
                let codes = |i: int| metrics.requests[names[i]].status_code_counts;
                &&& cells.len() == names.len()
                &&& forall|i: int|
                    0 <= i < names.len() ==> lists_counts(
                        #[trigger] cells[i],
                        |code: u16| codes(i).contains_key(code),
                        |code: u16| codes(i)[code] as int,
                    )
                &&& lists_counts(
                    aggregated,
                    |code: u16|
                        exists|i: int| 0 <= i < names.len() && #[trigger] codes(i).contains_key(code),
                    |code: u16| code_total(Seq::new(names.len(), codes), code),
                )
                &&& text == #[trigger] status_code_table(
                    short_names(metrics.request_names()),
                    cells,
                    aggregated,
                )
            },
{
    if metrics.display_status_codes {
        let names = metrics.request_names();
        let counts = request_codes(metrics.request_rows());
        let codes = |i: int| metrics.requests[names[i]].status_code_counts;
        let (cells, aggregated) = choose|cells: Seq<Seq<char>>, aggregated: Seq<char>|
            {
                &&& cells.len() == counts.len()
                &&& forall|i: int|
                    0 <= i < counts.len() ==> shows_codes(#[trigger] cells[i], counts[i])
                &&& shows_codes(aggregated, codes_sum(counts))
                &&& text == #[trigger] status_code_table(short_names(names), cells, aggregated)
            };
        assert forall|i: int| 0 <= i < names.len() implies lists_counts(
            #[trigger] cells[i],
            |code: u16| codes(i).contains_key(code),
            |code: u16| codes(i)[code] as int,
        ) by {
            assert(counts[i] == codes(i));
            let listed = choose|listed: Seq<(u16, usize)>|
                lists_codes(listed, counts[i]) && cells[i] == #[trigger] codes_text(listed);
            listings_hold_every_code_once(listed, counts[i]);
            assert(cells[i] == codes_text(listed));
        }
        let listed = choose|listed: Seq<(u16, usize)>|
            lists_codes(listed, codes_sum(counts)) && aggregated == #[trigger] codes_text(listed);
        listings_hold_every_code_once(listed, codes_sum(counts));
        code_sums_count_every_request(counts);
        let all = Seq::new(names.len(), codes);
        assert(all =~= counts);
        let has = |code: u16|
            exists|i: int| 0 <= i < names.len() && #[trigger] codes(i).contains_key(code);
        let count = |code: u16| code_total(Seq::new(names.len(), codes), code);
        assert forall|code: u16, n: usize| #[trigger] listed.contains((code, n)) <==> has(code)
            && count(code) == n by {
            assert(code_count(codes_sum(counts), code) == code_total(counts, code));
            if exists|i: int| 0 <= i < counts.len() && (#[trigger] counts[i]).contains_key(code) {
                let i = choose|i: int|
                    0 <= i < counts.len() && (#[trigger] counts[i]).contains_key(code);
                assert(codes(i).contains_key(code));
            }
            if has(code) {
                let i = choose|i: int|
                    0 <= i < names.len() && #[trigger] codes(i).contains_key(code);
                assert(counts[i].contains_key(code));
            }
            assert(codes_sum(counts).contains_key(code) <==> has(code));
        }
        assert(lists_counts(aggregated, has, count));
    }
}

/// The table of errors is shown of the final metrics only, and where there is an error. It shows of
/// each error how often it occurred, the method, the name and the text; those that occurred most
/// often come first.
pub proof fn errors_table_is_laid_out(metrics: MetricsModel)
    ensures
        !metrics.final_metrics || (forall|key: Seq<char>| !metrics.errors.contains_key(key))
            ==> errors_table(metrics).len() == 0,
        metrics.final_metrics && (exists|key: Seq<char>| metrics.errors.contains_key(key)) ==> {
            let keys = name_order(metrics.errors.dom());
            let pairs = Seq::new(
                keys.len(),
                |i: int|
                    {
                        let error = metrics.errors[keys[i]];
                        (
                            error.occurrences as usize,
                            error.method.text() + seq![' '] + error.name + seq![':', ' ']
                                + error.error,
                        )
                    },
            );
            errors_table(metrics) == "\n === ERRORS ===\n"@ + rule() + seq![' '] + left_aligned(
                "Count"@,
                11,
            ) + " | Error\n"@ + rule() + descending(pairs).map_values(
                |p: (usize, Seq<char>)|
                    seq![' '] + left_aligned(grouped(p.0 as nat), 12) + seq![' ', ' '] + p.1 + seq![
                        '\n',
                    ],
            ).flatten() + rule()
        },
{
    reveal_strlit(" ");
    reveal_strlit(": ");
    reveal_strlit("  ");
    reveal_strlit("\n");
    assert(" "@ =~= seq![' ']);
    assert(": "@ =~= seq![':', ' ']);
    assert("  "@ =~= seq![' ', ' ']);
    assert("\n"@ =~= seq!['\n']);
    let keys = name_order(metrics.errors.dom());
    let pairs = Seq::new(
        keys.len(),
        |i: int|
            {
                let error = metrics.errors[keys[i]];
                (
                    error.occurrences as usize,
                    error.method.text() + seq![' '] + error.name + seq![':', ' '] + error.error,
                )
            },
    );
    assert(error_pairs(metrics.errors) =~= pairs);
    let lines = descending(pairs).map_values(
        |p: (usize, Seq<char>)|
            seq![' '] + left_aligned(grouped(p.0 as nat), 12) + seq![' ', ' '] + p.1 + seq!['\n'],
    );
    assert(error_rows(metrics.errors) =~= lines);
    joining_keeps_everything(lines);
    if forall|key: Seq<char>| !metrics.errors.contains_key(key) {
        assert(metrics.errors =~= Map::<Seq<char>, ErrorModel>::empty());
    }
}

/// All tables together are those of the tasks, the task times, the requests, the response times, the
/// percentiles, the status codes and the errors, in this order and with nothing between them.
pub proof fn tables_follow_each_other(
    metrics: MetricsModel,
    figures: ReportFigures,
    text: Seq<char>,
)
    ensures
        is_report(metrics, figures, text) <==> exists|status_codes: Seq<char>|
            is_status_codes_table(metrics, status_codes) && text == #[trigger] seven(
                tasks_table(metrics, figures.tasks@),
                task_times_table(metrics, figures.task_times@),
                requests_table(metrics, figures.requests@),
                response_times_table(metrics, figures.response_times@),
                percentiles_table(metrics, figures.percentiles@),
                status_codes,
                errors_table(metrics),
            ).flatten(),
        forall|status_codes: Seq<char>| #[trigger]
            report_parts(metrics, figures, status_codes) == seven(
                tasks_table(metrics, figures.tasks@),
                task_times_table(metrics, figures.task_times@),
                requests_table(metrics, figures.requests@),
                response_times_table(metrics, figures.response_times@),
                percentiles_table(metrics, figures.percentiles@),
                status_codes,
                errors_table(metrics),
            ),
{
    assert forall|status_codes: Seq<char>|
        report(metrics, figures, status_codes) == #[trigger] seven(
            tasks_table(metrics, figures.tasks@),
            task_times_table(metrics, figures.task_times@),
            requests_table(metrics, figures.requests@),
            response_times_table(metrics, figures.response_times@),
            percentiles_table(metrics, figures.percentiles@),
            status_codes,
            errors_table(metrics),
        ).flatten() by {
        report_joins_its_parts(metrics, figures, status_codes);
        joining_keeps_everything(report_parts(metrics, figures, status_codes));
        assert(report_parts(metrics, figures, status_codes) =~= seven(
            tasks_table(metrics, figures.tasks@),
            task_times_table(metrics, figures.task_times@),
            requests_table(metrics, figures.requests@),
            response_times_table(metrics, figures.response_times@),
            percentiles_table(metrics, figures.percentiles@),
            status_codes,
            errors_table(metrics),
        ));
    }
    if is_report(metrics, figures, text) {
        let status_codes = choose|status_codes: Seq<char>|
            is_status_codes_table(metrics, status_codes) && text == #[trigger] report(
                metrics,
                figures,
                status_codes,
            );
        let parts = seven(
            tasks_table(metrics, figures.tasks@),
            task_times_table(metrics, figures.task_times@),
            requests_table(metrics, figures.requests@),
            response_times_table(metrics, figures.response_times@),
            percentiles_table(metrics, figures.percentiles@),
            status_codes,
            errors_table(metrics),
        );
        assert(text == parts.flatten());
    }
}

/// Seven texts.
pub open spec fn seven(
    a: Seq<char>,
    b: Seq<char>,
    c: Seq<char>,
    d: Seq<char>,
    e: Seq<char>,
    f: Seq<char>,
    g: Seq<char>,
) -> Seq<Seq<char>> {
    seq![a, b, c, d, e, f, g]
}

/// Errors that occurred equally often are listed by decreasing order of their texts.
pub proof fn equally_frequent_errors_are_ordered_by_text(
    pairs: Seq<(usize, Seq<char>)>,
    i: int,
    j: int,
)
    requires
        0 <= i < j < pairs.len(),
    ensures
        ({
            let (a, b) = (descending(pairs)[i], descending(pairs)[j]);
            a.0 > b.0 || (a.0 == b.0 && (a.1 == b.1 || text_lt(b.1, a.1)))
        }),
{
    descending_is_sorted(pairs);
}

} // verus!
