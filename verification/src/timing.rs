//! How long something took, row by row and in all, and its percentiles.

use crate::figures::{average, figure_text, quotient, shown, Figure, Ratio};
use crate::layout::{
    percentile_line, percentile_rule, time_line, time_rule, write_percentile_line, write_time_line,
};
use crate::order::texts;
use crate::text::{format_number, grouped};
use crate::times::{
    can_merge_times, displayed_time, extremes_in_any_order, max_time, median, merge_times,
    merging_is_associative, merging_is_commutative, merging_nothing, middle_rank, min_time,
    times_fit, times_merged, update_max_time, update_min_time, value_at_rank,
};
use std::collections::BTreeMap;
use vstd::prelude::*;

verus! {

broadcast use {vstd::std_specs::btree::group_btree_axioms, vstd::laws_cmp::group_laws_cmp};

/// The times of one row.
#[derive(Debug, Clone, PartialEq, Eq)]
pub struct TimeSummary {
    /// How often each time was seen.
    pub times: BTreeMap<usize, usize>,
    /// All times together.
    pub total: usize,
    /// How many times were seen.
    pub counter: usize,
    /// The shortest time.
    pub min: usize,
    /// The longest time.
    pub max: usize,
}

/// What a `TimeSummary` says.
#[verifier::ext_equal]
pub struct TimeModel {
    pub times: Map<usize, usize>,
    pub total: int,
    pub counter: int,
    pub min: int,
    pub max: int,
}

impl View for TimeSummary {
    type V = TimeModel;

    open spec fn view(&self) -> TimeModel {
        TimeModel {
            times: self.times@,
            total: self.total as int,
            counter: self.counter as int,
            min: self.min as int,
            max: self.max as int,
        }
    }
}

impl TimeModel {
    /// No time at all.
    pub open spec fn none() -> TimeModel {
        TimeModel { times: Map::empty(), total: 0, counter: 0, min: 0, max: 0 }
    }

    /// Two summaries taken together.
    pub open spec fn merged(self, other: TimeModel) -> TimeModel {
        TimeModel {
            times: times_merged(self.times, other.times),
            total: self.total + other.total,
            counter: self.counter + other.counter,
            min: min_time(self.min, other.min),
            max: max_time(self.max, other.max),
        }
    }

    /// Two summaries taken together are numbers that a summary can hold.
    pub open spec fn fits_with(self, other: TimeModel) -> bool {
        &&& times_fit(self.times, other.times)
        &&& self.total + other.total <= usize::MAX
        &&& self.counter + other.counter <= usize::MAX
    }
}

/// What summaries say.
pub open spec fn time_models(summaries: Seq<TimeSummary>) -> Seq<TimeModel> {
    summaries.map_values(|s: TimeSummary| s@)
}

/// The summaries taken together.
pub open spec fn time_sum(summaries: Seq<TimeModel>) -> TimeModel
    decreases summaries.len(),
{
    if summaries.len() == 0 {
        TimeModel::none()
    } else {
        time_sum(summaries.drop_last()).merged(summaries.last())
    }
}

/// The summaries taken together are numbers that a summary can hold.
pub open spec fn times_sum_fits(summaries: Seq<TimeModel>) -> bool
    decreases summaries.len(),
{
    summaries.len() == 0 || (times_sum_fits(summaries.drop_last()) && time_sum(
        summaries.drop_last(),
    ).fits_with(summaries.last()))
}

proof fn lemma_prefix_fits(summaries: Seq<TimeModel>, n: int)
    requires
        times_sum_fits(summaries),
        0 <= n <= summaries.len(),
    ensures
        times_sum_fits(summaries.take(n)),
    decreases summaries.len(),
{
    if n == summaries.len() {
        assert(summaries.take(n) =~= summaries);
    } else {
        lemma_prefix_fits(summaries.drop_last(), n);
        assert(summaries.drop_last().take(n) =~= summaries.take(n));
    }
}

/// Takes summaries together. There is no sum where a number is too large for it.
pub fn sum_of_times(summaries: &Vec<TimeSummary>) -> (r: Option<TimeSummary>)
    ensures
        r is Some <==> times_sum_fits(time_models(summaries@)),
        r matches Some(sum) ==> sum@ == time_sum(time_models(summaries@)),
{
    let ghost all = time_models(summaries@);
    let mut times: BTreeMap<usize, usize> = BTreeMap::new();
    let mut total: usize = 0;
    let mut counter: usize = 0;
    let mut min: usize = 0;
    let mut max: usize = 0;
    let mut i: usize = 0;
    assert(all.take(0) =~= Seq::<TimeModel>::empty());
    while i < summaries.len()
        invariant
            i <= summaries@.len(),
            all == time_models(summaries@),
            times_sum_fits(all.take(i as int)),
            time_sum(all.take(i as int)) == (TimeModel {
                times: times@,
                total: total as int,
                counter: counter as int,
                min: min as int,
                max: max as int,
            }),
        decreases summaries@.len() - i,
    {
        let summary = &summaries[i];
        proof {
            let longer = all.take(i + 1);
            assert(longer.drop_last() =~= all.take(i as int));
            assert(longer.last() == summary@);
            if times_sum_fits(all) {
                lemma_prefix_fits(all, i + 1);
            }
        }
        if !can_merge_times(&times, &summary.times) || summary.total > usize::MAX - total
            || summary.counter > usize::MAX - counter {
            return None;
        }
        // Merge the times of this row into those of all rows.
        times = merge_times(times, summary.times.clone());
        total += summary.total;
        counter += summary.counter;
        // Update the fastest and the slowest time of all rows.
        min = update_min_time(min, summary.min);
        max = update_max_time(max, summary.max);
        i += 1;
    }
    assert(all.take(summaries@.len() as int) =~= all);
    Some(TimeSummary { times, total, counter, min, max })
}

/// The averages of a table of times: one for each row, and one for the aggregate where there is
/// more than one row.
pub open spec fn table_averages(summaries: Seq<TimeModel>) -> Seq<Ratio> {
    let rows = summaries.map_values(|s: TimeModel| quotient(s.total, s.counter));
    if summaries.len() > 1 {
        rows.push(quotient(time_sum(summaries).total, time_sum(summaries).counter))
    } else {
        rows
    }
}

/// The averages that a table of times shows.
pub fn averages_of_table(summaries: &Vec<TimeSummary>, sum: &TimeSummary) -> (r: Vec<Ratio>)
    requires
        sum@ == time_sum(time_models(summaries@)),
    ensures
        r@ == table_averages(time_models(summaries@)),
{
    let ghost all = time_models(summaries@);
    let mut out: Vec<Ratio> = Vec::new();
    let mut i: usize = 0;
    while i < summaries.len()
        invariant
            i <= summaries@.len(),
            all == time_models(summaries@),
            out@.len() == i,
            forall|j: int|
                0 <= j < i ==> #[trigger] out@[j] == quotient(all[j].total, all[j].counter),
        decreases summaries@.len() - i,
    {
        out.push(average(summaries[i].total, summaries[i].counter));
        i += 1;
    }
    assert(out@ =~= all.map_values(|s: TimeModel| quotient(s.total, s.counter)));
    if summaries.len() > 1 {
        out.push(average(sum.total, sum.counter));
    }
    out
}

/// The median of a row.
pub open spec fn median_of(summary: TimeModel) -> usize {
    displayed_time(
        summary.times,
        middle_rank(summary.counter as nat),
        summary.min as usize,
        summary.max as usize,
    )
}

/// A row of a table of times.
pub open spec fn time_row(name: Seq<char>, summary: TimeModel, average: Figure) -> Seq<char> {
    time_line(
        name,
        shown(average),
        grouped(summary.min as nat),
        grouped(summary.max as nat),
        grouped(median_of(summary) as nat),
        11,
        10,
    )
}

/// Writes a row of a table of times.
pub(crate) fn write_time_row(name: &str, summary: &TimeSummary, average: &Figure) -> (r: String)
    ensures
        r@ == time_row(name@, summary@, *average),
{
    write_time_line(
        name,
        figure_text(average),
        format_number(summary.min).as_str(),
        format_number(summary.max).as_str(),
        format_number(
            median(&summary.times, summary.counter, summary.min, summary.max),
        ).as_str(),
        11,
        10,
    )
}

/// The rows of a table of times.
pub open spec fn time_rows(
    names: Seq<Seq<char>>,
    summaries: Seq<TimeModel>,
    averages: Seq<Figure>,
) -> Seq<Seq<char>> {
    Seq::new(names.len(), |i: int| time_row(names[i], summaries[i], averages[i]))
}

/// Writes the rows of a table of times.
pub(crate) fn write_time_rows(
    names: &Vec<String>,
    summaries: &Vec<TimeSummary>,
    averages: &Vec<Figure>,
) -> (r: Vec<String>)
    requires
        summaries@.len() == names@.len(),
        averages@.len() >= names@.len(),
    ensures
        texts(r@) == time_rows(texts(names@), time_models(summaries@), averages@),
{
    let mut out: Vec<String> = Vec::new();
    let mut i: usize = 0;
    while i < names.len()
        invariant
            i <= names@.len(),
            summaries@.len() == names@.len(),
            averages@.len() >= names@.len(),
            out@.len() == i,
            forall|j: int|
                0 <= j < i ==> (#[trigger] out@[j])@ == time_row(
                    names@[j]@,
                    summaries@[j]@,
                    averages@[j],
                ),
        decreases names@.len() - i,
    {
        out.push(write_time_row(names[i].as_str(), &summaries[i], &averages[i]));
        i += 1;
    }
    assert(texts(out@) =~= time_rows(texts(names@), time_models(summaries@), averages@));
    out
}

/// What follows the rows of a table of times: their aggregate, where there is more than one row.
pub open spec fn time_footer(summaries: Seq<TimeModel>, averages: Seq<Figure>) -> Seq<char> {
    if summaries.len() > 1 {
        time_rule() + time_row("Aggregated"@, time_sum(summaries), averages[summaries.len() as int])
    } else {
        Seq::empty()
    }
}

/// Writes what follows the rows of a table of times.
pub(crate) fn write_time_footer(
    summaries: &Vec<TimeSummary>,
    sum: &TimeSummary,
    averages: &Vec<Figure>,
) -> (r: String)
    requires
        sum@ == time_sum(time_models(summaries@)),
        summaries@.len() > 1 ==> averages@.len() > summaries@.len(),
    ensures
        r@ == time_footer(time_models(summaries@), averages@),
{
    let mut out = String::new();
    if summaries.len() > 1 {
        out = " -------------------------+-------------+------------+-------------+-----------\n".to_string();
        out.append(write_time_row("Aggregated", sum, &averages[summaries.len()]).as_str());
    }
    out
}

/// Asks for the rank of a percentile: which one of `total` requests it falls on.
#[derive(Debug, Clone, Copy, PartialEq, Eq, Structural)]
pub struct PercentileQuery {
    /// How many requests there are.
    pub total: usize,
    /// The percentile, in ten thousandths.
    pub ten_thousandths: usize,
}

/// The percentile of a column, in ten thousandths: of the columns headed 50%, 75%, 98%, 99%,
/// 99.9% and 99.99%.
pub open spec fn column_percentile(column: int) -> usize {
    if column == 0 {
        5000
    } else if column == 1 {
        7500
    } else if column == 2 {
        9800
    } else if column == 3 {
        9900
    } else if column == 4 {
        9990
    } else {
        9999
    }
}

/// What is asked for one row.
pub open spec fn row_queries(total: int) -> Seq<PercentileQuery> {
    Seq::new(
        6,
        |column: int|
            PercentileQuery {
                total: total as usize,
                ten_thousandths: column_percentile(column),
            },
    )
}

/// What is asked for the rows of the table.
pub open spec fn queries_of_rows(summaries: Seq<TimeModel>) -> Seq<PercentileQuery>
    decreases summaries.len(),
{
    if summaries.len() == 0 {
        Seq::empty()
    } else {
        queries_of_rows(summaries.drop_last()) + row_queries(summaries.last().counter)
    }
}

/// What is asked for the table: six ranks for each row, and six for the aggregate where there is
/// more than one row.
pub open spec fn table_queries(summaries: Seq<TimeModel>) -> Seq<PercentileQuery> {
    if summaries.len() > 1 {
        queries_of_rows(summaries) + row_queries(time_sum(summaries).counter)
    } else {
        queries_of_rows(summaries)
    }
}

proof fn lemma_queries_len(summaries: Seq<TimeModel>)
    ensures
        queries_of_rows(summaries).len() == 6 * summaries.len(),
    decreases summaries.len(),
{
    if summaries.len() > 0 {
        lemma_queries_len(summaries.drop_last());
    }
}

/// Six ranks are asked for each row of the table, and for its aggregate.
pub proof fn six_ranks_for_each_row(summaries: Seq<TimeModel>)
    ensures
        table_queries(summaries).len() == 6 * summaries.len() + if summaries.len() > 1 {
            6int
        } else {
            0
        },
{
    lemma_queries_len(summaries);
}

fn push_queries(queries: &mut Vec<PercentileQuery>, total: usize)
    ensures
        final(queries)@ == old(queries)@ + row_queries(total as int),
{
    queries.push(PercentileQuery { total, ten_thousandths: 5000 });
    queries.push(PercentileQuery { total, ten_thousandths: 7500 });
    queries.push(PercentileQuery { total, ten_thousandths: 9800 });
    queries.push(PercentileQuery { total, ten_thousandths: 9900 });
    queries.push(PercentileQuery { total, ten_thousandths: 9990 });
    queries.push(PercentileQuery { total, ten_thousandths: 9999 });
    assert(queries@ =~= old(queries)@ + row_queries(total as int));
}

/// The ranks that the table of percentiles needs.
pub fn queries_of_table(summaries: &Vec<TimeSummary>, sum: &TimeSummary) -> (r: Vec<
    PercentileQuery,
>)
    requires
        sum@ == time_sum(time_models(summaries@)),
    ensures
        r@ == table_queries(time_models(summaries@)),
{
    let ghost all = time_models(summaries@);
    let mut out: Vec<PercentileQuery> = Vec::new();
    let mut i: usize = 0;
    assert(all.take(0) =~= Seq::<TimeModel>::empty());
    while i < summaries.len()
        invariant
            i <= summaries@.len(),
            all == time_models(summaries@),
            out@ == queries_of_rows(all.take(i as int)),
        decreases summaries@.len() - i,
    {
        push_queries(&mut out, summaries[i].counter);
        proof {
            let longer = all.take(i + 1);
            assert(longer.drop_last() =~= all.take(i as int));
            assert(longer.last() == summaries@[i as int]@);
        }
        i += 1;
    }
    assert(all.take(summaries@.len() as int) =~= all);
    if summaries.len() > 1 {
        push_queries(&mut out, sum.counter);
    }
    out
}

/// Gets the response time that the first `percentile_request` requests finished within.
pub fn calculate_response_time_percentile(
    response_times: &BTreeMap<usize, usize>,
    percentile_request: usize,
    min: usize,
    max: usize,
) -> (r: String)
    ensures
        r@ == grouped(
            displayed_time(response_times@, percentile_request as nat, min, max) as nat,
        ),
{
    format_number(value_at_rank(response_times, percentile_request, min, max))
}

/// A row of the table of percentiles, whose ranks start at `start`.
pub open spec fn percentile_row(
    name: Seq<char>,
    summary: TimeModel,
    ranks: Seq<usize>,
    start: int,
) -> Seq<char> {
    percentile_line(
        name,
        Seq::new(
            6,
            |column: int|
                grouped(
                    displayed_time(
                        summary.times,
                        ranks[start + column] as nat,
                        summary.min as usize,
                        summary.max as usize,
                    ) as nat,
                ),
        ),
    )
}

/// Writes a row of the table of percentiles.
pub(crate) fn write_percentile_row(
    name: &str,
    summary: &TimeSummary,
    ranks: &Vec<usize>,
    start: usize,
) -> (r: String)
    requires
        start + 6 <= ranks@.len(),
    ensures
        r@ == percentile_row(name@, summary@, ranks@, start as int),
{
    let mut cells: Vec<String> = Vec::new();
    let mut column: usize = 0;
    while column < 6
        invariant
            column <= 6,
            start + 6 <= ranks.len(),
            ranks.len() == ranks@.len(),
            cells@.len() == column,
            forall|j: int|
                0 <= j < column ==> (#[trigger] cells@[j])@ == grouped(
                    displayed_time(
                        summary@.times,
                        ranks@[start + j] as nat,
                        summary.min,
                        summary.max,
                    ) as nat,
                ),
        decreases 6 - column,
    {
        cells.push(
            calculate_response_time_percentile(
                &summary.times,
                ranks[start + column],
                summary.min,
                summary.max,
            ),
        );
        column += 1;
    }
    proof {
        let expected = Seq::new(
            6,
            |column: int|
                grouped(
                    displayed_time(
                        summary@.times,
                        ranks@[start + column] as nat,
                        summary@.min as usize,
                        summary@.max as usize,
                    ) as nat,
                ),
        );
        assert(texts(cells@) =~= expected);
    }
    write_percentile_line(name, &cells)
}

/// The rows of the table of percentiles.
pub open spec fn percentile_rows(
    names: Seq<Seq<char>>,
    summaries: Seq<TimeModel>,
    ranks: Seq<usize>,
) -> Seq<Seq<char>> {
    Seq::new(names.len(), |i: int| percentile_row(names[i], summaries[i], ranks, 6 * i))
}

/// Writes the rows of the table of percentiles.
pub(crate) fn write_percentile_rows(
    names: &Vec<String>,
    summaries: &Vec<TimeSummary>,
    ranks: &Vec<usize>,
) -> (r: Vec<String>)
    requires
        summaries@.len() == names@.len(),
        ranks@.len() >= 6 * names@.len(),
    ensures
        texts(r@) == percentile_rows(texts(names@), time_models(summaries@), ranks@),
{
    let mut out: Vec<String> = Vec::new();
    let mut i: usize = 0;
    while i < names.len()
        invariant
            i <= names@.len(),
            summaries@.len() == names@.len(),
            ranks.len() >= 6 * names@.len(),
            ranks.len() == ranks@.len(),
            out@.len() == i,
            forall|j: int|
                0 <= j < i ==> (#[trigger] out@[j])@ == percentile_row(
                    names@[j]@,
                    summaries@[j]@,
                    ranks@,
                    6 * j,
                ),
        decreases names@.len() - i,
    {
        out.push(write_percentile_row(names[i].as_str(), &summaries[i], ranks, 6 * i));
        i += 1;
    }
    assert(texts(out@) =~= percentile_rows(texts(names@), time_models(summaries@), ranks@));
    out
}

/// What follows the rows of the table of percentiles: their aggregate, where there is more than
/// one row.
pub open spec fn percentile_footer(summaries: Seq<TimeModel>, ranks: Seq<usize>) -> Seq<char> {
    if summaries.len() > 1 {
        percentile_rule() + percentile_row(
            "Aggregated"@,
            time_sum(summaries),
            ranks,
            6 * summaries.len() as int,
        )
    } else {
        Seq::empty()
    }
}

/// Writes what follows the rows of the table of percentiles.
pub(crate) fn write_percentile_footer(
    summaries: &Vec<TimeSummary>,
    sum: &TimeSummary,
    ranks: &Vec<usize>,
) -> (r: String)
    requires
        sum@ == time_sum(time_models(summaries@)),
        summaries@.len() > 1 ==> ranks@.len() >= 6 * summaries@.len() + 6,
    ensures
        r@ == percentile_footer(time_models(summaries@), ranks@),
{
    let mut out = String::new();
    if summaries.len() > 1 {
        out = " -------------------------+--------+--------+--------+--------+--------+-------\n".to_string();
        assert(ranks.len() >= 6 * summaries@.len() + 6);
        out.append(write_percentile_row("Aggregated", sum, ranks, 6 * summaries.len()).as_str());
    }
    out
}

/// It does not matter in which order summaries are taken together, and taking none of them changes
/// nothing.
pub proof fn summaries_in_any_order(a: TimeModel, b: TimeModel, c: TimeModel)
    requires
        a.min >= 0 && a.max >= 0,
        b.min >= 0 && b.max >= 0,
        c.min >= 0 && c.max >= 0,
        a.fits_with(b),
        a.merged(b).fits_with(c),
    ensures
        a.merged(b) == b.merged(a),
        a.merged(b).merged(c) == a.merged(b.merged(c)),
        a.merged(TimeModel::none()) == a,
        TimeModel::none().merged(a) == a,
{
    merging_is_commutative(a.times, b.times);
    merging_is_associative(a.times, b.times, c.times);
    merging_nothing(a.times);
    extremes_in_any_order(a.min, b.min, c.min);
    extremes_in_any_order(a.max, b.max, c.max);
}

/// Summaries are read one by one, with all that they say.
pub proof fn summaries_are_read_one_by_one(summaries: Seq<TimeSummary>, i: int)
    requires
        0 <= i < summaries.len(),
    ensures
        time_models(summaries).len() == summaries.len(),
        time_models(summaries)[i].times == summaries[i].times@,
        time_models(summaries)[i].total == summaries[i].total,
        time_models(summaries)[i].counter == summaries[i].counter,
        time_models(summaries)[i].min == summaries[i].min,
        time_models(summaries)[i].max == summaries[i].max,
{
}

} // verus!
