//! The tables that display the metrics of a load test.
//!
//! A table is written from the metrics and from the figures that were worked out for it. Which
//! figures it needs is told by a function beside it.

use crate::counts::{
    count_footer, count_rows, ratios_of_table, table_ratios, tallies_fit,
    write_count_footer, write_count_rows, CountFigures, CountRatios,
};
use crate::figures::{Figure, Ratio};
use crate::layout::{
    count_line, join_range, joined, percentile_line, rule, time_line, write_count_line,
    write_percentile_line, write_time_line,
};
use crate::metrics::{
    listed_task_models, request_tallies, request_times, tallies_of_requests, tallies_of_tasks,
    task_models, task_set_models, task_tallies, task_times, times_of_requests, times_of_tasks,
    GooseMetrics, MetricsModel,
};
use crate::order::texts;
use crate::request::RequestAggregateModel;
use crate::task::{GooseTaskAggregateMetric, TaskAggregateModel};
use crate::text::{align_left, decimal, decimal_text, left_aligned, truncate_string, truncated};
use crate::timing::{
    averages_of_table, percentile_footer, percentile_rows, queries_of_table,
    six_ranks_for_each_row, sum_of_times, table_averages, table_queries, time_footer, time_rows,
    times_sum_fits, write_percentile_footer, write_percentile_rows, write_time_footer,
    write_time_rows, PercentileQuery,
};
use vstd::prelude::*;

verus! {

impl MetricsModel {
    /// There are requests, so that their tables are displayed.
    pub open spec fn has_requests(self) -> bool {
        self.requests != Map::<Seq<char>, RequestAggregateModel>::empty()
    }

    /// There are tasks and they are displayed.
    pub open spec fn shows_tasks(self) -> bool {
        self.tasks.len() > 0 && self.display_metrics
    }
}

/// Names as a column of tables shows them.
pub open spec fn short_names(names: Seq<Seq<char>>) -> Seq<Seq<char>> {
    names.map_values(|name: Seq<char>| truncated(name, 24))
}

pub(crate) fn shortened(names: &Vec<String>) -> (r: Vec<String>)
    ensures
        r@.len() == names@.len(),
        texts(r@) == short_names(texts(names@)),
{
    let mut out: Vec<String> = Vec::new();
    let mut i: usize = 0;
    while i < names.len()
        invariant
            i <= names@.len(),
            out@.len() == i,
            forall|j: int| 0 <= j < i ==> (#[trigger] out@[j])@ == truncated(names@[j]@, 24),
        decreases names@.len() - i,
    {
        out.push(truncate_string(names[i].as_str(), 24));
        i += 1;
    }
    assert(texts(out@) =~= short_names(texts(names@)));
    out
}

/// The heading of a table of counts.
pub open spec fn count_heading(
    title: Seq<char>,
    total: Seq<char>,
    rate: Seq<char>,
) -> Seq<char> {
    "\n === "@ + title + " ===\n"@ + rule() + count_line(
        "Name"@,
        total,
        "# fails"@,
        rate,
        "fail/s"@,
    ) + rule()
}

fn write_count_heading(title: &str, total: &str, rate: &str) -> (r: String)
    ensures
        r@ == count_heading(title@, total@, rate@),
{
    let mut out = "\n === ".to_string();
    out.append(title);
    out.append(" ===\n");
    out.append(" ------------------------------------------------------------------------------\n");
    out.append(write_count_line("Name", total, "# fails", rate, "fail/s").as_str());
    out.append(" ------------------------------------------------------------------------------\n");
    out
}

/// The fractions of the table of requests and fails.
pub open spec fn request_ratios(metrics: MetricsModel) -> Seq<CountRatios> {
    if metrics.has_requests() {
        table_ratios(metrics.duration, request_tallies(metrics.request_rows()))
    } else {
        Seq::empty()
    }
}

/// The counters of the table of requests and fails can be added up.
pub open spec fn request_counts_fit(metrics: MetricsModel) -> bool {
    metrics.has_requests() ==> tallies_fit(request_tallies(metrics.request_rows()))
}

/// The table of requests and fails, if there is anything to display.
pub open spec fn requests_table(metrics: MetricsModel, figures: Seq<CountFigures>) -> Seq<char> {
    if metrics.has_requests() {
        count_heading("PER REQUEST METRICS"@, "# reqs"@, "req/s"@) + joined(
            count_rows(
                short_names(metrics.request_names()),
                request_tallies(metrics.request_rows()),
                figures,
            ),
        ) + count_footer(request_tallies(metrics.request_rows()), figures)
    } else {
        Seq::empty()
    }
}

impl GooseMetrics {
    /// The fractions that the table of requests and fails needs. There is no answer where a
    /// counter is too large to be added up.
    pub fn request_ratios(&self) -> (r: Option<Vec<CountRatios>>)
        ensures
            r is Some <==> request_counts_fit(self@),
            r matches Some(ratios) ==> ratios@ == request_ratios(self@),
    {
        let (names, rows) = self.listed_requests();
        if names.len() == 0 {
            return Some(Vec::new());
        }
        match tallies_of_requests(&rows) {
            Some(tallies) => Some(ratios_of_table(self.duration, &tallies)),
            None => None,
        }
    }

    /// Optionally prepares a table of requests and fails.
    pub fn fmt_requests(&self, figures: &Vec<CountFigures>) -> (r: String)
        requires
            request_counts_fit(self@),
            figures@.len() == request_ratios(self@).len(),
        ensures
            r@ == requests_table(self@, figures@),
    {
        let (names, rows) = self.listed_requests();
        // If there's nothing to display, exit immediately.
        if names.len() == 0 {
            return String::new();
        }
        match tallies_of_requests(&rows) {
            Some(tallies) => {
                let mut out = write_count_heading("PER REQUEST METRICS", "# reqs", "req/s");
                let lines = write_count_rows(&shortened(&names), &tallies, figures);
                out.append(join_range(&lines, 0, lines.len()).as_str());
                assert(texts(lines@).subrange(0, lines@.len() as int) =~= texts(lines@));
                out.append(write_count_footer(&tallies, figures).as_str());
                out
            },
            None => String::new(),
        }
    }
}

/// The name of a task in the tables: its number, counted from one, and its name.
pub open spec fn task_label(task: TaskAggregateModel) -> Seq<char> {
    truncated("  "@ + decimal((task.task_index + 1) as nat) + ": "@ + task.task_name, 24)
}

/// The names of tasks in the tables.
pub open spec fn task_labels(tasks: Seq<TaskAggregateModel>) -> Seq<Seq<char>> {
    tasks.map_values(|task: TaskAggregateModel| task_label(task))
}

/// The line above the first task of a task set: the number of the set, counted from one, and its
/// name.
pub open spec fn task_set_line(first: TaskAggregateModel) -> Seq<char> {
    " "@ + left_aligned(
        truncated(decimal((first.taskset_index + 1) as nat) + ": "@ + first.taskset_name, 60),
        24,
    ) + " |\n"@
}

/// What a table shows of one task set, whose tasks are shown in `lines`. A set without tasks is
/// not shown.
pub open spec fn task_set_block(tasks: Seq<TaskAggregateModel>, lines: Seq<Seq<char>>) -> Seq<
    char,
> {
    if tasks.len() > 0 {
        task_set_line(tasks[0]) + joined(lines)
    } else {
        Seq::empty()
    }
}

/// What a table shows of all task sets, whose tasks are shown in `lines`.
pub open spec fn task_blocks(sets: Seq<Seq<TaskAggregateModel>>, lines: Seq<Seq<char>>) -> Seq<
    char,
>
    decreases sets.len(),
{
    if sets.len() == 0 {
        Seq::empty()
    } else {
        let before = joined(sets.drop_last()).len() as int;
        task_blocks(sets.drop_last(), lines) + task_set_block(
            sets.last(),
            lines.subrange(before, before + sets.last().len()),
        )
    }
}

/// The numbers of the tasks and task sets that the tables show can be counted from one.
pub open spec fn task_numbers_fit(metrics: MetricsModel) -> bool {
    &&& forall|s: int|
        0 <= s < metrics.tasks.len() && (#[trigger] metrics.tasks[s]).len() > 0
            ==> metrics.tasks[s][0].taskset_index < usize::MAX
    &&& forall|i: int|
        0 <= i < metrics.task_rows().len() ==> (#[trigger] metrics.task_rows()[i]).task_index
            < usize::MAX
}

proof fn lemma_joined_prefix<T>(parts: Seq<Seq<T>>, n: int)
    requires
        0 <= n <= parts.len(),
    ensures
        joined(parts.take(n)).len() <= joined(parts).len(),
        n < parts.len() ==> joined(parts.take(n + 1)).len() == joined(parts.take(n)).len()
            + parts[n].len(),
    decreases parts.len() - n,
{
    if n == parts.len() {
        assert(parts.take(n) =~= parts);
    } else {
        assert(parts.take(n + 1).drop_last() =~= parts.take(n));
        lemma_joined_prefix(parts, n + 1);
    }
}

fn write_task_set_line(first: &GooseTaskAggregateMetric) -> (r: String)
    requires
        first.taskset_index < usize::MAX,
    ensures
        r@ == task_set_line(first@),
{
    let mut name = decimal_text(first.taskset_index + 1);
    name.append(": ");
    name.append(first.taskset_name.as_str());
    let mut out = " ".to_string();
    out.append(align_left(truncate_string(name.as_str(), 60).as_str(), 24).as_str());
    out.append(" |\n");
    out
}

fn labels_of_tasks(rows: &Vec<&GooseTaskAggregateMetric>) -> (r: Vec<String>)
    requires
        forall|i: int| 0 <= i < rows@.len() ==> (#[trigger] rows@[i]).task_index < usize::MAX,
    ensures
        r@.len() == rows@.len(),
        texts(r@) == task_labels(listed_task_models(rows@)),
{
    let mut out: Vec<String> = Vec::new();
    let mut i: usize = 0;
    while i < rows.len()
        invariant
            i <= rows@.len(),
            forall|i: int| 0 <= i < rows@.len() ==> (#[trigger] rows@[i]).task_index < usize::MAX,
            out@.len() == i,
            forall|j: int| 0 <= j < i ==> (#[trigger] out@[j])@ == task_label(rows@[j]@),
        decreases rows@.len() - i,
    {
        let mut label = "  ".to_string();
        label.append(decimal_text(rows[i].task_index + 1).as_str());
        label.append(": ");
        label.append(rows[i].task_name.as_str());
        out.push(truncate_string(label.as_str(), 24));
        i += 1;
    }
    assert(texts(out@) =~= task_labels(listed_task_models(rows@)));
    out
}

impl GooseMetrics {
    /// The tasks in the order of the tables, with their names there.
    fn labelled_tasks(&self) -> (r: (Vec<String>, Vec<&GooseTaskAggregateMetric>))
        requires
            task_numbers_fit(self@),
        ensures
            r.0@.len() == r.1@.len(),
            texts(r.0@) == task_labels(self@.task_rows()),
            listed_task_models(r.1@) == self@.task_rows(),
    {
        let rows = self.listed_tasks();
        assert forall|i: int| 0 <= i < rows@.len() implies (#[trigger] rows@[i]).task_index
            < usize::MAX by {
            assert(self@.task_rows()[i] == rows@[i]@);
        }
        let labels = labels_of_tasks(&rows);
        (labels, rows)
    }

    /// Writes what a table shows of the task sets.
    fn write_task_blocks(&self, lines: &Vec<String>) -> (r: String)
        requires
            task_numbers_fit(self@),
            lines@.len() == self@.task_rows().len(),
        ensures
            r@ == task_blocks(self@.tasks, texts(lines@)),
    {
        let ghost sets = self@.tasks;
        let mut out = String::new();
        let mut start: usize = 0;
        let mut i: usize = 0;
        assert(sets.take(0) =~= Seq::<Seq<TaskAggregateModel>>::empty());
        while i < self.tasks.len()
            invariant
                i <= self.tasks@.len(),
                task_numbers_fit(self@),
                sets == self@.tasks,
                sets == task_set_models(self.tasks@),
                lines.len() == joined(sets).len(),
                lines.len() == lines@.len(),
                start == joined(sets.take(i as int)).len(),
                out@ == task_blocks(sets.take(i as int), texts(lines@)),
            decreases self.tasks@.len() - i,
        {
            let set = &self.tasks[i];
            proof {
                lemma_joined_prefix(sets, i as int);
                lemma_joined_prefix(sets, i + 1);
                assert(sets[i as int] == task_models(set@));
                let longer = sets.take(i + 1);
                assert(longer.drop_last() =~= sets.take(i as int));
                assert(longer.last() == task_models(set@));
            }
            let end: usize = start + set.len();
            let mut block = String::new();
            if set.len() > 0 {
                assert(sets[i as int][0] == set@[0]@);
                block = write_task_set_line(&set[0]);
                block.append(join_range(lines, start, end).as_str());
            }
            out.append(block.as_str());
            start = end;
            i += 1;
        }
        assert(sets.take(self.tasks@.len() as int) =~= sets);
        out
    }
}

/// The fractions of the table of tasks.
pub open spec fn task_ratios(metrics: MetricsModel) -> Seq<CountRatios> {
    if metrics.shows_tasks() {
        table_ratios(metrics.duration, task_tallies(metrics.task_rows()))
    } else {
        Seq::empty()
    }
}

/// The counters of the table of tasks can be added up.
pub open spec fn task_counts_fit(metrics: MetricsModel) -> bool {
    metrics.shows_tasks() ==> task_numbers_fit(metrics) && tallies_fit(
        task_tallies(metrics.task_rows()),
    )
}

/// The table of tasks, if there is anything to display.
pub open spec fn tasks_table(metrics: MetricsModel, figures: Seq<CountFigures>) -> Seq<char> {
    if metrics.shows_tasks() {
        count_heading("PER TASK METRICS"@, "# times run"@, "task/s"@) + task_blocks(
            metrics.tasks,
            count_rows(
                task_labels(metrics.task_rows()),
                task_tallies(metrics.task_rows()),
                figures,
            ),
        ) + count_footer(task_tallies(metrics.task_rows()), figures)
    } else {
        Seq::empty()
    }
}

impl GooseMetrics {
    /// Whether the numbers of all displayed tasks and task sets can be counted from one.
    fn task_numbers_fit(&self) -> (r: bool)
        ensures
            r == task_numbers_fit(self@),
    {
        let mut i: usize = 0;
        while i < self.tasks.len()
            invariant
                i <= self.tasks@.len(),
                forall|s: int|
                    0 <= s < i && (#[trigger] self@.tasks[s]).len() > 0
                        ==> self@.tasks[s][0].taskset_index < usize::MAX,
            decreases self.tasks@.len() - i,
        {
            let set = &self.tasks[i];
            assert(self@.tasks[i as int] == task_models(set@));
            if set.len() > 0 && set[0].taskset_index == usize::MAX {
                assert(self@.tasks[i as int][0] == set@[0]@);
                return false;
            }
            i += 1;
        }
        let rows = self.listed_tasks();
        let mut j: usize = 0;
        while j < rows.len()
            invariant
                j <= rows@.len(),
                listed_task_models(rows@) == self@.task_rows(),
                forall|k: int|
                    0 <= k < j ==> (#[trigger] self@.task_rows()[k]).task_index < usize::MAX,
            decreases rows@.len() - j,
        {
            assert(self@.task_rows()[j as int] == rows@[j as int]@);
            if rows[j].task_index == usize::MAX {
                return false;
            }
            j += 1;
        }
        assert(self@.task_rows().len() == rows@.len());
        true
    }

    /// Whether there are tasks to display.
    fn shows_tasks(&self) -> (r: bool)
        ensures
            r == self@.shows_tasks(),
    {
        self.tasks.len() > 0 && self.display_metrics
    }

    /// The fractions that the table of tasks needs. There is no answer where a counter is too
    /// large to be added up or a number too large to be counted from one.
    pub fn task_ratios(&self) -> (r: Option<Vec<CountRatios>>)
        ensures
            r is Some <==> task_counts_fit(self@),
            r matches Some(ratios) ==> ratios@ == task_ratios(self@),
    {
        if !self.shows_tasks() {
            return Some(Vec::new());
        }
        if !self.task_numbers_fit() {
            return None;
        }
        match tallies_of_tasks(&self.listed_tasks()) {
            Some(tallies) => Some(ratios_of_table(self.duration, &tallies)),
            None => None,
        }
    }

    /// Optionally prepares a table of tasks.
    pub fn fmt_tasks(&self, figures: &Vec<CountFigures>) -> (r: String)
        requires
            task_counts_fit(self@),
            figures@.len() == task_ratios(self@).len(),
        ensures
            r@ == tasks_table(self@, figures@),
    {
        // If there's nothing to display, exit immediately.
        if !self.shows_tasks() {
            return String::new();
        }
        let (labels, rows) = self.labelled_tasks();
        match tallies_of_tasks(&rows) {
            Some(tallies) => {
                let mut out = write_count_heading("PER TASK METRICS", "# times run", "task/s");
                let lines = write_count_rows(&labels, &tallies, figures);
                assert(texts(lines@).len() == self@.task_rows().len());
                out.append(self.write_task_blocks(&lines).as_str());
                out.append(write_count_footer(&tallies, figures).as_str());
                out
            },
            None => String::new(),
        }
    }
}

/// The heading of a table of times, whose last two columns have the given widths.
pub open spec fn time_heading(max_width: nat, median_width: nat) -> Seq<char> {
    rule() + time_line(
        "Name"@,
        "Avg (ms)"@,
        "Min"@,
        "Max"@,
        "Median"@,
        max_width,
        median_width,
    ) + rule()
}

fn write_time_heading(max_width: usize, median_width: usize) -> (r: String)
    ensures
        r@ == time_heading(max_width as nat, median_width as nat),
{
    let mut out =
        " ------------------------------------------------------------------------------\n".to_string();
    out.append(
        write_time_line(
            "Name",
            "Avg (ms)",
            "Min",
            "Max",
            "Median",
            max_width,
            median_width,
        ).as_str(),
    );
    out.append(" ------------------------------------------------------------------------------\n");
    out
}

/// The averages of the table of task times.
pub open spec fn task_averages(metrics: MetricsModel) -> Seq<Ratio> {
    if metrics.shows_tasks() {
        table_averages(task_times(metrics.task_rows()))
    } else {
        Seq::empty()
    }
}

/// The times of the table of task times can be added up.
pub open spec fn task_times_fit(metrics: MetricsModel) -> bool {
    metrics.shows_tasks() ==> task_numbers_fit(metrics) && times_sum_fits(
        task_times(metrics.task_rows()),
    )
}

/// The table of task times, if there is anything to display.
pub open spec fn task_times_table(metrics: MetricsModel, averages: Seq<Figure>) -> Seq<char> {
    if metrics.shows_tasks() {
        time_heading(11, 10) + task_blocks(
            metrics.tasks,
            time_rows(
                task_labels(metrics.task_rows()),
                task_times(metrics.task_rows()),
                averages,
            ),
        ) + time_footer(task_times(metrics.task_rows()), averages)
    } else {
        Seq::empty()
    }
}

impl GooseMetrics {
    /// The averages that the table of task times needs. There is no answer where a time is too
    /// large to be added up or a number too large to be counted from one.
    pub fn task_averages(&self) -> (r: Option<Vec<Ratio>>)
        ensures
            r is Some <==> task_times_fit(self@),
            r matches Some(averages) ==> averages@ == task_averages(self@),
    {
        if !self.shows_tasks() {
            return Some(Vec::new());
        }
        if !self.task_numbers_fit() {
            return None;
        }
        let summaries = times_of_tasks(&self.listed_tasks());
        match sum_of_times(&summaries) {
            Some(sum) => Some(averages_of_table(&summaries, &sum)),
            None => None,
        }
    }

    /// Optionally prepares a table of task times.
    pub fn fmt_task_times(&self, averages: &Vec<Figure>) -> (r: String)
        requires
            task_times_fit(self@),
            averages@.len() == task_averages(self@).len(),
        ensures
            r@ == task_times_table(self@, averages@),
    {
        // If there's nothing to display, exit immediately.
        if !self.shows_tasks() {
            return String::new();
        }
        let (labels, rows) = self.labelled_tasks();
        let summaries = times_of_tasks(&rows);
        match sum_of_times(&summaries) {
            Some(sum) => {
                let mut out = write_time_heading(11, 10);
                let lines = write_time_rows(&labels, &summaries, averages);
                assert(texts(lines@).len() == self@.task_rows().len());
                out.append(self.write_task_blocks(&lines).as_str());
                out.append(write_time_footer(&summaries, &sum, averages).as_str());
                out
            },
            None => String::new(),
        }
    }
}

/// The averages of the table of response times.
pub open spec fn response_averages(metrics: MetricsModel) -> Seq<Ratio> {
    if metrics.has_requests() {
        table_averages(request_times(metrics.request_rows()))
    } else {
        Seq::empty()
    }
}

/// The times of the table of response times can be added up.
pub open spec fn response_times_fit(metrics: MetricsModel) -> bool {
    metrics.has_requests() ==> times_sum_fits(request_times(metrics.request_rows()))
}

/// The table of response times, if there is anything to display.
pub open spec fn response_times_table(metrics: MetricsModel, averages: Seq<Figure>) -> Seq<char> {
    if metrics.has_requests() {
        time_heading(10, 11) + joined(
            time_rows(
                short_names(metrics.request_names()),
                request_times(metrics.request_rows()),
                averages,
            ),
        ) + time_footer(request_times(metrics.request_rows()), averages)
    } else {
        Seq::empty()
    }
}

impl GooseMetrics {
    /// The averages that the table of response times needs. There is no answer where a time is
    /// too large to be added up.
    pub fn response_averages(&self) -> (r: Option<Vec<Ratio>>)
        ensures
            r is Some <==> response_times_fit(self@),
            r matches Some(averages) ==> averages@ == response_averages(self@),
    {
        let (names, rows) = self.listed_requests();
        if names.len() == 0 {
            return Some(Vec::new());
        }
        let summaries = times_of_requests(&rows);
        match sum_of_times(&summaries) {
            Some(sum) => Some(averages_of_table(&summaries, &sum)),
            None => None,
        }
    }

    /// Optionally prepares a table of response times.
    pub fn fmt_response_times(&self, averages: &Vec<Figure>) -> (r: String)
        requires
            response_times_fit(self@),
            averages@.len() == response_averages(self@).len(),
        ensures
            r@ == response_times_table(self@, averages@),
    {
        let (names, rows) = self.listed_requests();
        // If there's nothing to display, exit immediately.
        if names.len() == 0 {
            return String::new();
        }
        let summaries = times_of_requests(&rows);
        match sum_of_times(&summaries) {
            Some(sum) => {
                let mut out = write_time_heading(10, 11);
                let lines = write_time_rows(&shortened(&names), &summaries, averages);
                out.append(join_range(&lines, 0, lines.len()).as_str());
                assert(texts(lines@).subrange(0, lines@.len() as int) =~= texts(lines@));
                out.append(write_time_footer(&summaries, &sum, averages).as_str());
                out
            },
            None => String::new(),
        }
    }
}

/// The ranks that the table of percentiles asks for.
pub open spec fn percentile_queries(metrics: MetricsModel) -> Seq<PercentileQuery> {
    if metrics.final_metrics {
        table_queries(request_times(metrics.request_rows()))
    } else {
        Seq::empty()
    }
}

/// The times of the table of percentiles can be added up.
pub open spec fn percentiles_fit(metrics: MetricsModel) -> bool {
    metrics.final_metrics ==> times_sum_fits(request_times(metrics.request_rows()))
}

/// The heading of the table of percentiles.
pub open spec fn percentile_heading() -> Seq<char> {
    rule() + " Slowest page load within specified percentile of requests (in ms):\n"@ + rule()
        + percentile_line(
        "Name"@,
        seq!["50%"@, "75%"@, "98%"@, "99%"@, "99.9%"@, "99.99%"@],
    ) + rule()
}

fn write_percentile_heading() -> (r: String)
    ensures
        r@ == percentile_heading(),
{
    let mut out =
        " ------------------------------------------------------------------------------\n".to_string();
    out.append(" Slowest page load within specified percentile of requests (in ms):\n");
    out.append(" ------------------------------------------------------------------------------\n");
    let mut cells: Vec<String> = Vec::new();
    cells.push("50%".to_string());
    cells.push("75%".to_string());
    cells.push("98%".to_string());
    cells.push("99%".to_string());
    cells.push("99.9%".to_string());
    cells.push("99.99%".to_string());
    assert(texts(cells@) =~= seq!["50%"@, "75%"@, "98%"@, "99%"@, "99.9%"@, "99.99%"@]);
    out.append(write_percentile_line("Name", &cells).as_str());
    out.append(" ------------------------------------------------------------------------------\n");
    out
}

/// The table of slowest response times within several percentiles. Only the final metrics show it.
pub open spec fn percentiles_table(metrics: MetricsModel, ranks: Seq<usize>) -> Seq<char> {
    if metrics.final_metrics {
        percentile_heading() + joined(
            percentile_rows(
                short_names(metrics.request_names()),
                request_times(metrics.request_rows()),
                ranks,
            ),
        ) + percentile_footer(request_times(metrics.request_rows()), ranks)
    } else {
        Seq::empty()
    }
}

impl GooseMetrics {
    /// The ranks that the table of percentiles needs. There is no answer where a time is too large
    /// to be added up.
    pub fn percentile_queries(&self) -> (r: Option<Vec<PercentileQuery>>)
        ensures
            r is Some <==> percentiles_fit(self@),
            r matches Some(queries) ==> queries@ == percentile_queries(self@),
    {
        if !self.final_metrics {
            return Some(Vec::new());
        }
        let (names, rows) = self.listed_requests();
        let summaries = times_of_requests(&rows);
        match sum_of_times(&summaries) {
            Some(sum) => Some(queries_of_table(&summaries, &sum)),
            None => None,
        }
    }

    /// Optionally prepares a table of slowest response times within several percentiles.
    pub fn fmt_percentiles(&self, ranks: &Vec<usize>) -> (r: String)
        requires
            percentiles_fit(self@),
            ranks@.len() == percentile_queries(self@).len(),
        ensures
            r@ == percentiles_table(self@, ranks@),
    {
        // Only include percentiles when displaying the final metrics report.
        if !self.final_metrics {
            return String::new();
        }
        let (names, rows) = self.listed_requests();
        let summaries = times_of_requests(&rows);
        match sum_of_times(&summaries) {
            Some(sum) => {
                let mut out = write_percentile_heading();
                proof {
                    six_ranks_for_each_row(request_times(self@.request_rows()));
                    assert(request_times(self@.request_rows()).len() == summaries@.len());
                }
                let lines = write_percentile_rows(&shortened(&names), &summaries, ranks);
                out.append(join_range(&lines, 0, lines.len()).as_str());
                assert(texts(lines@).subrange(0, lines@.len() as int) =~= texts(lines@));
                out.append(write_percentile_footer(&summaries, &sum, ranks).as_str());
                out
            },
            None => String::new(),
        }
    }
}

} // verus!
