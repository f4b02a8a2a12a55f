//! The tables of status codes and of errors, and all tables together.

use crate::codes::{
    can_merge_codes, codes_sum, codes_sum_fits, lemma_prefix_fits, prepare_status_codes,
    shows_codes,
};
use crate::counts::{CountFigures, CountRatios};
use crate::error::{ErrorModel, GooseErrorMetric};
use crate::figures::{Figure, Ratio};
use crate::layout::{code_line, code_rule, join_range, joined, rule, write_code_line};
use crate::metrics::{request_codes, request_models, GooseMetrics, MetricsModel};
use crate::order::{
    descending, descending_is_sorted, is_name_order, name_order, names_can_be_ordered, pair_texts,
    sorted_descending, texts,
};
use crate::report::{
    percentile_queries, percentiles_fit, percentiles_table, request_counts_fit, request_ratios,
    requests_table, response_averages, response_times_fit, response_times_table, short_names,
    shortened, task_averages, task_counts_fit, task_ratios, task_times_fit, task_times_table,
    tasks_table,
};
use crate::text::{align_left, format_number, grouped, left_aligned};
use crate::timing::PercentileQuery;
use std::collections::HashMap;
use vstd::prelude::*;

verus! {

/// The rows of the table of status codes.
pub open spec fn code_rows(names: Seq<Seq<char>>, cells: Seq<Seq<char>>) -> Seq<Seq<char>> {
    Seq::new(names.len(), |i: int| code_line(names[i], cells[i]) + "\n"@)
}

/// The table of status codes: for each name its codes, and the codes of all together.
pub open spec fn status_code_table(
    names: Seq<Seq<char>>,
    cells: Seq<Seq<char>>,
    aggregated: Seq<char>,
) -> Seq<char> {
    rule() + code_line("Name"@, "Status codes"@) + " \n"@ + rule() + joined(
        code_rows(names, cells),
    ) + code_rule() + code_line("Aggregated"@, aggregated) + " \n"@
}

/// Writes the table of status codes, from the codes of each name and those of all together.
pub fn write_status_codes(names: &Vec<String>, cells: &Vec<String>, aggregated: &str) -> (r: String)
    requires
        cells@.len() == names@.len(),
    ensures
        r@ == status_code_table(texts(names@), texts(cells@), aggregated@),
{
    let mut lines: Vec<String> = Vec::new();
    let mut i: usize = 0;
    while i < names.len()
        invariant
            i <= names@.len(),
            cells@.len() == names@.len(),
            lines@.len() == i,
            forall|j: int|
                0 <= j < i ==> (#[trigger] lines@[j])@ == code_line(names@[j]@, cells@[j]@)
                    + "\n"@,
        decreases names@.len() - i,
    {
        let mut line = write_code_line(names[i].as_str(), cells[i].as_str());
        line.append("\n");
        lines.push(line);
        i += 1;
    }
    assert(texts(lines@) =~= code_rows(texts(names@), texts(cells@)));
    let mut out =
        " ------------------------------------------------------------------------------\n".to_string();
    out.append(write_code_line("Name", "Status codes").as_str());
    out.append(" \n");
    out.append(" ------------------------------------------------------------------------------\n");
    out.append(join_range(&lines, 0, lines.len()).as_str());
    assert(texts(lines@).subrange(0, lines@.len() as int) =~= texts(lines@));
    out.append(" -------------------------+----------------------------------------------------\n");
    out.append(write_code_line("Aggregated", aggregated).as_str());
    out.append(" \n");
    out
}

/// The status codes of all requests can be added up.
pub open spec fn status_codes_fit(metrics: MetricsModel) -> bool {
    metrics.display_status_codes ==> codes_sum_fits(request_codes(metrics.request_rows()))
}

/// `text` is the table of status codes, if they are displayed. The codes of a request stand there
/// in any order.
pub open spec fn is_status_codes_table(metrics: MetricsModel, text: Seq<char>) -> bool {
    let codes = request_codes(metrics.request_rows());
    if metrics.display_status_codes {
        exists|cells: Seq<Seq<char>>, aggregated: Seq<char>|
            {
                &&& cells.len() == codes.len()
                &&& forall|i: int|
                    0 <= i < codes.len() ==> shows_codes(#[trigger] cells[i], codes[i])
                &&& shows_codes(aggregated, codes_sum(codes))
                &&& text == #[trigger] status_code_table(
                    short_names(metrics.request_names()),
                    cells,
                    aggregated,
                )
            }
    } else {
        text == Seq::<char>::empty()
    }
}

impl GooseMetrics {
    /// Whether the status codes of all requests can be added up, where they are displayed.
    pub fn status_codes_fit(&self) -> (r: bool)
        ensures
            r == status_codes_fit(self@),
    {
        if !self.display_status_codes {
            return true;
        }
        let (names, rows) = self.listed_requests();
        let ghost codes = request_codes(self@.request_rows());
        let mut aggregated: HashMap<u16, usize> = HashMap::new();
        let mut i: usize = 0;
        assert(codes.take(0) =~= Seq::<Map<u16, usize>>::empty());
        while i < rows.len()
            invariant
                i <= rows@.len(),
                self.display_status_codes,
                request_models(rows@) == self@.request_rows(),
                codes == request_codes(self@.request_rows()),
                codes_sum_fits(codes.take(i as int)),
                aggregated@ == codes_sum(codes.take(i as int)),
            decreases rows@.len() - i,
        {
            let counts = &rows[i].status_code_counts;
            proof {
                assert(codes[i as int] == request_models(rows@)[i as int].status_code_counts);
                let longer = codes.take(i + 1);
                assert(longer.drop_last() =~= codes.take(i as int));
                assert(longer.last() == counts@);
                if codes_sum_fits(codes) {
                    lemma_prefix_fits(codes, i + 1);
                }
            }
            if !can_merge_codes(&aggregated, counts) {
                return false;
            }
            let _ = prepare_status_codes(counts, &mut Some(&mut aggregated));
            i += 1;
        }
        assert(codes.len() == request_models(rows@).len());
        assert(codes.take(codes.len() as int) =~= codes);
        true
    }

    /// Optionally prepares a table of response status codes.
    pub fn fmt_status_codes(&self) -> (r: String)
        requires
            status_codes_fit(self@),
        ensures
            is_status_codes_table(self@, r@),
    {
        // If there's nothing to display, exit immediately.
        if !self.display_status_codes {
            return String::new();
        }
        let (names, rows) = self.listed_requests();
        let ghost codes = request_codes(self@.request_rows());
        let mut aggregated: HashMap<u16, usize> = HashMap::new();
        let mut cells: Vec<String> = Vec::new();
        let mut i: usize = 0;
        assert(codes.take(0) =~= Seq::<Map<u16, usize>>::empty());
        while i < rows.len()
            invariant
                i <= rows@.len(),
                request_models(rows@) == self@.request_rows(),
                codes == request_codes(self@.request_rows()),
                codes_sum_fits(codes),
                aggregated@ == codes_sum(codes.take(i as int)),
                cells@.len() == i,
                forall|j: int| 0 <= j < i ==> shows_codes((#[trigger] cells@[j])@, codes[j]),
            decreases rows@.len() - i,
        {
            let counts = &rows[i].status_code_counts;
            proof {
                assert(codes[i as int] == request_models(rows@)[i as int].status_code_counts);
                let longer = codes.take(i + 1);
                assert(longer.drop_last() =~= codes.take(i as int));
                assert(longer.last() == counts@);
                lemma_prefix_fits(codes, i + 1);
            }
            cells.push(prepare_status_codes(counts, &mut Some(&mut aggregated)));
            i += 1;
        }
        assert(codes.len() == request_models(rows@).len());
        assert(codes.take(codes.len() as int) =~= codes);
        let all = prepare_status_codes(&aggregated, &mut None);
        let r = write_status_codes(&shortened(&names), &cells, all.as_str());
        assert(r@ == status_code_table(short_names(self@.request_names()), texts(cells@), all@));
        r
    }
}

/// What the table of errors says of an error.
pub open spec fn error_text(error: ErrorModel) -> Seq<char> {
    error.method.text() + " "@ + error.name + ": "@ + error.error
}

/// The errors with how often they occurred, by increasing order of their keys.
pub open spec fn error_pairs(errors: Map<Seq<char>, ErrorModel>) -> Seq<(usize, Seq<char>)> {
    name_order(errors.dom()).map_values(
        |key: Seq<char>| (errors[key].occurrences as usize, error_text(errors[key])),
    )
}

/// A row of the table of errors.
pub open spec fn error_row(error: (usize, Seq<char>)) -> Seq<char> {
    " "@ + left_aligned(grouped(error.0 as nat), 12) + "  "@ + error.1 + "\n"@
}

/// The rows of the table of errors: the error that occurred most often comes first.
pub open spec fn error_rows(errors: Map<Seq<char>, ErrorModel>) -> Seq<Seq<char>> {
    descending(error_pairs(errors)).map_values(|error: (usize, Seq<char>)| error_row(error))
}

impl MetricsModel {
    /// There are errors and they are displayed.
    pub open spec fn shows_errors(self) -> bool {
        self.final_metrics && self.errors != Map::<Seq<char>, ErrorModel>::empty()
    }
}

/// The table of errors, if there is anything to display. Only the final metrics show it.
pub open spec fn errors_table(metrics: MetricsModel) -> Seq<char> {
    if metrics.shows_errors() {
        "\n === ERRORS ===\n"@ + rule() + " "@ + left_aligned("Count"@, 11) + " | Error\n"@ + rule()
            + joined(error_rows(metrics.errors)) + rule()
    } else {
        Seq::empty()
    }
}

fn write_error_rows(errors: &Vec<(usize, String)>) -> (r: Vec<String>)
    ensures
        texts(r@) == pair_texts(errors@).map_values(
            |error: (usize, Seq<char>)| error_row(error),
        ),
{
    let mut lines: Vec<String> = Vec::new();
    let mut i: usize = 0;
    while i < errors.len()
        invariant
            i <= errors@.len(),
            lines@.len() == i,
            forall|j: int|
                0 <= j < i ==> (#[trigger] lines@[j])@ == error_row(
                    (errors@[j].0, errors@[j].1@),
                ),
        decreases errors@.len() - i,
    {
        let mut line = " ".to_string();
        line.append(align_left(format_number(errors[i].0).as_str(), 12).as_str());
        line.append("  ");
        line.append(errors[i].1.as_str());
        line.append("\n");
        lines.push(line);
        i += 1;
    }
    assert(texts(lines@) =~= pair_texts(errors@).map_values(
        |error: (usize, Seq<char>)| error_row(error),
    ));
    lines
}

impl GooseMetrics {
    /// Whether there are errors to display.
    pub fn shows_errors(&self) -> (r: bool)
        ensures
            r == self@.shows_errors(),
    {
        proof {
            let models = self@.errors;
            if self.errors@ == Map::<Seq<char>, GooseErrorMetric>::empty() {
                assert(models =~= Map::<Seq<char>, ErrorModel>::empty());
            } else if models == Map::<Seq<char>, ErrorModel>::empty() {
                assert forall|key: Seq<char>| !self.errors@.contains_key(key) by {
                    assert(!models.contains_key(key));
                }
                assert(self.errors@ =~= Map::<Seq<char>, GooseErrorMetric>::empty());
            }
        }
        self.final_metrics && !self.errors.is_empty()
    }

    /// The errors with how often they occurred, by increasing order of their keys.
    fn listed_errors(&self) -> (r: Vec<(usize, String)>)
        ensures
            pair_texts(r@) == error_pairs(self@.errors),
    {
        let keys = self.errors.keys();
        assert(self@.errors.dom() =~= self.errors@.dom());
        let mut errors: Vec<(usize, String)> = Vec::new();
        let mut i: usize = 0;
        while i < keys.len()
            invariant
                i <= keys@.len(),
                texts(keys@).to_set() == self.errors@.dom(),
                errors@.len() == i,
                forall|j: int|
                    0 <= j < i ==> (#[trigger] errors@[j]).0
                        == self@.errors[keys@[j]@].occurrences as usize && errors@[j].1@
                        == error_text(self@.errors[keys@[j]@]),
            decreases keys@.len() - i,
        {
            proof {
                let listed = texts(keys@);
                assert(listed[i as int] == keys@[i as int]@);
                assert(listed.contains(listed[i as int]));
                assert(listed.to_set().contains(listed[i as int]));
            }
            match self.errors.get(keys[i].as_str()) {
                Some(error) => {
                    let mut text = error.method.as_str().to_string();
                    text.append(" ");
                    text.append(error.name.as_str());
                    text.append(": ");
                    text.append(error.error.as_str());
                    errors.push((error.occurrences, text));
                },
                None => {
                    assert(false);
                },
            }
            i += 1;
        }
        assert(pair_texts(errors@) =~= error_pairs(self@.errors));
        errors
    }

    /// Optionally prepares a table of errors.
    pub fn fmt_errors(&self) -> (r: String)
        ensures
            r@ == errors_table(self@),
    {
        // Only include errors when displaying the final metrics report, and if there are
        // errors to display.
        if !self.shows_errors() {
            return String::new();
        }
        // Write the errors into a vector which can then be sorted by occurrences.
        let errors = self.listed_errors();
        let mut out = "\n === ERRORS ===\n".to_string();
        out.append(
            " ------------------------------------------------------------------------------\n",
        );
        out.append(" ");
        out.append(align_left("Count", 11).as_str());
        out.append(" | Error\n");
        out.append(
            " ------------------------------------------------------------------------------\n",
        );
        // Reverse sort errors to display the error occurring the most first.
        let lines = write_error_rows(&sorted_descending(errors));
        out.append(join_range(&lines, 0, lines.len()).as_str());
        assert(texts(lines@).subrange(0, lines@.len() as int) =~= texts(lines@));
        out.append(
            " ------------------------------------------------------------------------------\n",
        );
        out
    }
}

/// The fractions and ranks that all tables together need.
#[derive(Debug)]
pub struct ReportRatios {
    /// For the table of tasks.
    pub tasks: Vec<CountRatios>,
    /// For the table of task times.
    pub task_times: Vec<Ratio>,
    /// For the table of requests and fails.
    pub requests: Vec<CountRatios>,
    /// For the table of response times.
    pub response_times: Vec<Ratio>,
    /// For the table of percentiles.
    pub percentiles: Vec<PercentileQuery>,
}

/// The fractions and ranks of all tables, worked out.
#[derive(Debug)]
pub struct ReportFigures {
    /// For the table of tasks.
    pub tasks: Vec<CountFigures>,
    /// For the table of task times.
    pub task_times: Vec<Figure>,
    /// For the table of requests and fails.
    pub requests: Vec<CountFigures>,
    /// For the table of response times.
    pub response_times: Vec<Figure>,
    /// For the table of percentiles.
    pub percentiles: Vec<usize>,
}

/// All numbers that the tables show can be added up.
pub open spec fn report_fits(metrics: MetricsModel) -> bool {
    &&& task_counts_fit(metrics)
    &&& task_times_fit(metrics)
    &&& request_counts_fit(metrics)
    &&& response_times_fit(metrics)
    &&& percentiles_fit(metrics)
    &&& status_codes_fit(metrics)
}

/// As many figures are given as the tables need.
pub open spec fn figures_match(metrics: MetricsModel, figures: ReportFigures) -> bool {
    &&& figures.tasks@.len() == task_ratios(metrics).len()
    &&& figures.task_times@.len() == task_averages(metrics).len()
    &&& figures.requests@.len() == request_ratios(metrics).len()
    &&& figures.response_times@.len() == response_averages(metrics).len()
    &&& figures.percentiles@.len() == percentile_queries(metrics).len()
}

/// All tables together, of which the one of status codes is given.
pub open spec fn report(metrics: MetricsModel, figures: ReportFigures, status_codes: Seq<char>) -> Seq<
    char,
> {
    tasks_table(metrics, figures.tasks@) + task_times_table(metrics, figures.task_times@)
        + requests_table(metrics, figures.requests@) + response_times_table(
        metrics,
        figures.response_times@,
    ) + percentiles_table(metrics, figures.percentiles@) + status_codes + errors_table(metrics)
}

/// The tables one by one, of which the one of status codes is given.
pub open spec fn report_parts(
    metrics: MetricsModel,
    figures: ReportFigures,
    status_codes: Seq<char>,
) -> Seq<Seq<char>> {
    seq![
        tasks_table(metrics, figures.tasks@),
        task_times_table(metrics, figures.task_times@),
        requests_table(metrics, figures.requests@),
        response_times_table(metrics, figures.response_times@),
        percentiles_table(metrics, figures.percentiles@),
        status_codes,
        errors_table(metrics),
    ]
}

/// A part more is joined behind the others.
proof fn lemma_joined_push(parts: Seq<Seq<char>>, part: Seq<char>)
    ensures
        joined(parts.push(part)) == joined(parts) + part,
{
    assert(parts.push(part).drop_last() =~= parts);
}

/// Seven texts are joined one after the other.
proof fn lemma_joined_seven(parts: Seq<Seq<char>>)
    requires
        parts.len() == 7,
    ensures
        joined(parts) == parts[0] + parts[1] + parts[2] + parts[3] + parts[4] + parts[5] + parts[6],
{
    let none = Seq::<Seq<char>>::empty();
    let one = none.push(parts[0]);
    let two = one.push(parts[1]);
    let three = two.push(parts[2]);
    let four = three.push(parts[3]);
    let five = four.push(parts[4]);
    let six = five.push(parts[5]);
    lemma_joined_push(none, parts[0]);
    assert(joined(none) + parts[0] =~= parts[0]);
    lemma_joined_push(one, parts[1]);
    lemma_joined_push(two, parts[2]);
    lemma_joined_push(three, parts[3]);
    lemma_joined_push(four, parts[4]);
    lemma_joined_push(five, parts[5]);
    lemma_joined_push(six, parts[6]);
    assert(six.push(parts[6]) =~= parts);
}

/// All tables together are the tables one after the other.
pub proof fn report_joins_its_parts(
    metrics: MetricsModel,
    figures: ReportFigures,
    status_codes: Seq<char>,
)
    ensures
        joined(report_parts(metrics, figures, status_codes)) == report(
            metrics,
            figures,
            status_codes,
        ),
{
    lemma_joined_seven(report_parts(metrics, figures, status_codes));
}

/// Collects seven strings in their order.
fn seven_strings(
    a: String,
    b: String,
    c: String,
    d: String,
    e: String,
    f: String,
    g: String,
) -> (r: Vec<String>)
    ensures
        texts(r@) == seq![a@, b@, c@, d@, e@, f@, g@],
{
    let mut strings: Vec<String> = Vec::new();
    strings.push(a);
    strings.push(b);
    strings.push(c);
    strings.push(d);
    strings.push(e);
    strings.push(f);
    strings.push(g);
    assert(texts(strings@) =~= seq![a@, b@, c@, d@, e@, f@, g@]);
    strings
}

/// `text` shows all tables together.
pub open spec fn is_report(metrics: MetricsModel, figures: ReportFigures, text: Seq<char>) -> bool {
    exists|status_codes: Seq<char>|
        is_status_codes_table(metrics, status_codes) && text == #[trigger] report(
            metrics,
            figures,
            status_codes,
        )
}

impl GooseMetrics {
    /// The fractions and ranks that the tables need. There is no answer where a number is too
    /// large to be added up.
    pub fn report_ratios(&self) -> (r: Option<ReportRatios>)
        ensures
            r is Some <==> report_fits(self@),
            r matches Some(ratios) ==> {
                &&& ratios.tasks@ == task_ratios(self@)
                &&& ratios.task_times@ == task_averages(self@)
                &&& ratios.requests@ == request_ratios(self@)
                &&& ratios.response_times@ == response_averages(self@)
                &&& ratios.percentiles@ == percentile_queries(self@)
            },
    {
        if !self.status_codes_fit() {
            return None;
        }
        match (
            self.task_ratios(),
            self.task_averages(),
            self.request_ratios(),
            self.response_averages(),
            self.percentile_queries(),
        ) {
            (
                Some(tasks),
                Some(task_times),
                Some(requests),
                Some(response_times),
                Some(percentiles),
            ) => Some(ReportRatios { tasks, task_times, requests, response_times, percentiles }),
            _ => None,
        }
    }

    /// Writes the tables one by one, of which the one of status codes is given.
    pub fn fmt_parts_with_status_codes(&self, figures: &ReportFigures, status_codes: &str) -> (r:
        Vec<String>)
        requires
            report_fits(self@),
            figures_match(self@, *figures),
        ensures
            texts(r@) == report_parts(self@, *figures, status_codes@),
    {
        // Formats from zero to seven tables of data, depending on what data is contained
        // and which contained flags are set.
        seven_strings(
            self.fmt_tasks(&figures.tasks),
            self.fmt_task_times(&figures.task_times),
            self.fmt_requests(&figures.requests),
            self.fmt_response_times(&figures.response_times),
            self.fmt_percentiles(&figures.percentiles),
            status_codes.to_string(),
            self.fmt_errors(),
        )
    }

    /// Writes the tables one by one.
    pub fn fmt_parts(&self, figures: &ReportFigures) -> (r: Vec<String>)
        requires
            report_fits(self@),
            figures_match(self@, *figures),
        ensures
            exists|status_codes: Seq<char>|
                is_status_codes_table(self@, status_codes) && texts(r@) == #[trigger] report_parts(
                    self@,
                    *figures,
                    status_codes,
                ),
    {
        let status_codes = self.fmt_status_codes();
        self.fmt_parts_with_status_codes(figures, status_codes.as_str())
    }

    /// Writes all tables together, of which the one of status codes is given.
    pub fn fmt_with_status_codes(&self, figures: &ReportFigures, status_codes: &str) -> (r: String)
        requires
            report_fits(self@),
            figures_match(self@, *figures),
        ensures
            r@ == report(self@, *figures, status_codes@),
    {
        let parts = self.fmt_parts_with_status_codes(figures, status_codes);
        proof {
            report_joins_its_parts(self@, *figures, status_codes@);
            assert(texts(parts@).subrange(0, parts@.len() as int) =~= texts(parts@));
        }
        join_range(&parts, 0, parts.len())
    }

    /// Writes all tables together.
    pub fn fmt(&self, figures: &ReportFigures) -> (r: String)
        requires
            report_fits(self@),
            figures_match(self@, *figures),
        ensures
            is_report(self@, *figures, r@),
    {
        let status_codes = self.fmt_status_codes();
        self.fmt_with_status_codes(figures, status_codes.as_str())
    }

    /// What is printed of all metrics from a completed load test, if they are displayed.
    pub fn print(&self, figures: &ReportFigures) -> (r: Option<String>)
        requires
            self.display_metrics ==> report_fits(self@) && figures_match(self@, *figures),
        ensures
            r is Some <==> self@.display_metrics,
            r matches Some(text) ==> is_report(self@, *figures, text@),
    {
        if self.display_metrics {
            Some(self.fmt(figures))
        } else {
            None
        }
    }

    /// What is printed of the metrics from a running load test, if they are displayed.
    pub fn print_running(&self, figures: &ReportFigures) -> (r: Option<String>)
        requires
            self.display_metrics ==> report_fits(self@) && figures_match(self@, *figures),
        ensures
            r is Some <==> self@.display_metrics,
            r matches Some(printed) ==> exists|text: Seq<char>| #[trigger]
                is_report(self@, *figures, text) && printed@ == text + "\n"@,
    {
        if self.display_metrics {
            // Include a blank line after printing running metrics.
            let mut out = self.fmt(figures);
            out.append("\n");
            Some(out)
        } else {
            None
        }
    }
}

/// Nothing is displayed of metrics in which nothing was collected and no flag is set.
pub proof fn fresh_metrics_display_nothing(figures: ReportFigures, text: Seq<char>)
    requires
        is_report(MetricsModel::empty(), figures, text),
    ensures
        text == Seq::<char>::empty(),
{
    let metrics = MetricsModel::empty();
    let status_codes = choose|status_codes: Seq<char>|
        is_status_codes_table(metrics, status_codes) && text == #[trigger] report(
            metrics,
            figures,
            status_codes,
        );
    assert(report(metrics, figures, status_codes) =~= Seq::<char>::empty());
}

/// While a load test runs, neither percentiles nor errors are displayed.
pub proof fn running_metrics_display_no_final_tables(metrics: MetricsModel, ranks: Seq<usize>)
    requires
        !metrics.final_metrics,
    ensures
        percentiles_table(metrics, ranks) == Seq::<char>::empty(),
        errors_table(metrics) == Seq::<char>::empty(),
{
}

/// The table of errors shows every error once, those that occurred more often before those that
/// occurred less often.
pub proof fn frequent_errors_come_first(errors: Map<Seq<char>, ErrorModel>)
    requires
        errors.dom().finite(),
    ensures
        is_name_order(name_order(errors.dom()), errors.dom()),
        descending(error_pairs(errors)).to_multiset() == error_pairs(errors).to_multiset(),
        error_rows(errors).len() == name_order(errors.dom()).len(),
        forall|i: int, j: int|
            0 <= i < j < error_rows(errors).len() ==> (#[trigger] descending(
                error_pairs(errors),
            )[i]).0 >= (#[trigger] descending(error_pairs(errors))[j]).0,
{
    names_can_be_ordered(errors.dom());
    descending_is_sorted(error_pairs(errors));
}

} // verus!
