//! What the tables say of their rows, and how their last row follows from the others.

use crate::counts::{
    count_footer, count_row, count_rows, table_ratios, tally_sum, CountFigures, TallyModel,
};
use crate::figures::{shown, shown_percentage, Figure, Ratio};
use crate::layout::{count_line, count_rule, percentile_line, percentile_rule, time_line, time_rule};
use crate::sums::{total_of, totals_add_up};
use crate::text::{grouped, numbers_can_be_read_back, value_of};
use crate::times::{count_of, displayed_time, merging_adds_counts};
use crate::timing::{
    median_of, percentile_footer, percentile_row, percentile_rows, queries_of_rows, row_queries,
    table_averages, table_queries, time_footer, time_row, time_rows, time_sum, times_sum_fits,
    TimeModel,
};
use vstd::prelude::*;

verus! {

/// All successes and failures make up the total, and the failures are those.
pub proof fn tallies_tell_totals_and_failures(success: int, fail: int)
    ensures
        TallyModel::of(success, fail).total == success + fail,
        TallyModel::of(success, fail).fail == fail,
{
}

/// The sum of tallies has the totals of all of them, and the failures of all of them.
pub proof fn tally_sums_count_every_row(tallies: Seq<TallyModel>)
    ensures
        tally_sum(tallies).total == total_of(tallies.map_values(|t: TallyModel| t.total)),
        tally_sum(tallies).fail == total_of(tallies.map_values(|t: TallyModel| t.fail)),
    decreases tallies.len(),
{
    let totals = tallies.map_values(|t: TallyModel| t.total);
    let fails = tallies.map_values(|t: TallyModel| t.fail);
    if tallies.len() > 0 {
        let rest = tallies.drop_last();
        tally_sums_count_every_row(rest);
        let rest_totals = rest.map_values(|t: TallyModel| t.total);
        let rest_fails = rest.map_values(|t: TallyModel| t.fail);
        totals_add_up(rest_totals, rest_totals, tallies.last().total);
        totals_add_up(rest_fails, rest_fails, tallies.last().fail);
        assert(totals =~= rest_totals.push(tallies.last().total));
        assert(fails =~= rest_fails.push(tallies.last().fail));
    }
}

/// The line for a name in a table of counts shows how often, how many failures with their
/// percentage in parentheses, and both for each second; the numbers can be read back.
pub proof fn count_rows_show_their_tally(name: Seq<char>, tally: TallyModel, figures: CountFigures)
    requires
        tally.total >= 0,
        tally.fail >= 0,
    ensures
        ({
            let (total, fail) = (grouped(tally.total as nat), grouped(tally.fail as nat));
            &&& value_of(total) == tally.total
            &&& value_of(fail) == tally.fail
            &&& count_row(name, tally, figures) == count_line(
                name,
                total,
                fail + seq![' ', '('] + shown_percentage(figures.fail_percent) + seq!['%', ')'],
                shown(figures.per_second),
                shown(figures.fails_per_second),
            )
        }),
{
    numbers_can_be_read_back(tally.total as nat);
    numbers_can_be_read_back(tally.fail as nat);
    reveal_strlit(" (");
    reveal_strlit("%)");
    assert(" ("@ =~= seq![' ', '(']);
    assert("%)"@ =~= seq!['%', ')']);
}

/// A table of counts has one line for each name, which shows the tally and the figures of that name.
pub proof fn count_tables_have_a_line_for_each_name(
    names: Seq<Seq<char>>,
    tallies: Seq<TallyModel>,
    figures: Seq<CountFigures>,
    i: int,
)
    requires
        0 <= i < names.len(),
    ensures
        count_rows(names, tallies, figures).len() == names.len(),
        count_rows(names, tallies, figures)[i] == count_row(names[i], tallies[i], figures[i]),
{
}

/// Where a table of counts has more than one row, its last line shows the totals of all rows added
/// up and the failures of all rows added up, and the numbers can be read back. Where it has one row
/// or none, there is no such line.
pub proof fn aggregated_counts_are_sums(tallies: Seq<TallyModel>, figures: Seq<CountFigures>)
    requires
        forall|i: int| 0 <= i < tallies.len() ==> 0 <= (#[trigger] tallies[i]).fail,
        forall|i: int| 0 <= i < tallies.len() ==> 0 <= (#[trigger] tallies[i]).total,
    ensures
        tallies.len() <= 1 ==> count_footer(tallies, figures).len() == 0,
        tallies.len() > 1 ==> {
            let total = total_of(tallies.map_values(|t: TallyModel| t.total));
            let fail = total_of(tallies.map_values(|t: TallyModel| t.fail));
            let worked_out = figures[tallies.len() as int];
            let (totals, fails) = (grouped(total as nat), grouped(fail as nat));
            &&& value_of(totals) == total
            &&& value_of(fails) == fail
            &&& count_footer(tallies, figures) == count_rule() + count_line(
                seq!['A', 'g', 'g', 'r', 'e', 'g', 'a', 't', 'e', 'd'],
                totals,
                fails + seq![' ', '('] + shown_percentage(worked_out.fail_percent) + seq!['%', ')'],
                shown(worked_out.per_second),
                shown(worked_out.fails_per_second),
            )
        },
{
    tally_sums_count_every_row(tallies);
    lemma_tally_sum_natural(tallies);
    lemma_aggregated();
    if tallies.len() > 1 {
        count_rows_show_their_tally(
            "Aggregated"@,
            tally_sum(tallies),
            figures[tallies.len() as int],
        );
    }
}

proof fn lemma_aggregated()
    ensures
        "Aggregated"@ == seq!['A', 'g', 'g', 'r', 'e', 'g', 'a', 't', 'e', 'd'],
{
    reveal_strlit("Aggregated");
    assert("Aggregated"@ =~= seq!['A', 'g', 'g', 'r', 'e', 'g', 'a', 't', 'e', 'd']);
}

proof fn lemma_tally_sum_natural(tallies: Seq<TallyModel>)
    requires
        forall|i: int| 0 <= i < tallies.len() ==> 0 <= (#[trigger] tallies[i]).fail,
        forall|i: int| 0 <= i < tallies.len() ==> 0 <= (#[trigger] tallies[i]).total,
    ensures
        tally_sum(tallies).total >= 0,
        tally_sum(tallies).fail >= 0,
    decreases tallies.len(),
{
    if tallies.len() > 0 {
        let rest = tallies.drop_last();
        assert forall|i: int| 0 <= i < rest.len() implies 0 <= (#[trigger] rest[i]).fail && 0
            <= rest[i].total by {
            assert(0 <= tallies[i].fail && 0 <= tallies[i].total);
        }
        assert(tallies[tallies.len() - 1] == tallies.last());
        lemma_tally_sum_natural(rest);
    }
}

/// The fractions that a table of counts needs are, for each row, its failures by its total, and its
/// total and its failures by the duration; and where there is more than one row, the same of all
/// rows added up.
pub proof fn count_fractions_follow_the_rows(duration: usize, tallies: Seq<TallyModel>, i: int)
    requires
        0 <= i < tallies.len(),
        forall|j: int|
            0 <= j < tallies.len() ==> 0 <= (#[trigger] tallies[j]).fail <= tallies[j].total,
        tally_sum(tallies).total <= usize::MAX,
    ensures
        ({
            let ratios = table_ratios(duration, tallies);
            let total = total_of(tallies.map_values(|t: TallyModel| t.total));
            let fail = total_of(tallies.map_values(|t: TallyModel| t.fail));
            &&& ratios.len() == tallies.len() + if tallies.len() > 1 {
                1int
            } else {
                0
            }
            &&& is_fraction_of(ratios[i].fail_percent, tallies[i].fail, tallies[i].total, tallies[i].fail > 0)
            &&& is_fraction_of(ratios[i].per_second, tallies[i].total, duration as int, duration > 0)
            &&& is_fraction_of(ratios[i].fails_per_second, tallies[i].fail, duration as int, duration > 0)
            &&& tallies.len() > 1 ==> {
                let last = ratios[tallies.len() as int];
                &&& is_fraction_of(last.fail_percent, fail, total, fail > 0)
                &&& is_fraction_of(last.per_second, total, duration as int, duration > 0)
                &&& is_fraction_of(last.fails_per_second, fail, duration as int, duration > 0)
            }
        }),
{
    tally_sums_count_every_row(tallies);
    lemma_sum_bounds(tallies, i);
}

/// The fraction has these two numbers where it is worth something, and else is zero.
pub open spec fn is_fraction_of(ratio: Ratio, above: int, below: int, counts: bool) -> bool {
    if counts {
        ratio.numerator == above && ratio.denominator == below
    } else {
        ratio.numerator == 0 && ratio.denominator == 1
    }
}

proof fn lemma_sum_bounds(tallies: Seq<TallyModel>, i: int)
    requires
        0 <= i < tallies.len(),
        forall|j: int|
            0 <= j < tallies.len() ==> 0 <= (#[trigger] tallies[j]).fail <= tallies[j].total,
    ensures
        0 <= tally_sum(tallies).fail <= tally_sum(tallies).total,
        tallies[i].total <= tally_sum(tallies).total,
        tallies[i].fail <= tally_sum(tallies).fail,
    decreases tallies.len(),
{
    let rest = tallies.drop_last();
    assert forall|j: int| 0 <= j < rest.len() implies 0 <= (#[trigger] rest[j]).fail
        <= rest[j].total by {
        assert(0 <= tallies[j].fail <= tallies[j].total);
    }
    assert(tallies[tallies.len() - 1] == tallies.last());
    if rest.len() > 0 {
        let k = if i < rest.len() {
            i
        } else {
            0
        };
        lemma_sum_bounds(rest, k);
        assert(rest[k] == tallies[k]);
    } else {
        assert(tally_sum(rest).total == 0 && tally_sum(rest).fail == 0);
    }
}

/// What all rows of a table of times come to: their times and their numbers of times added up, the
/// longest of their longest times, and the shortest of their shortest times that were set; and every
/// time was seen as often as in all rows.
pub proof fn time_sums_count_every_row(rows: Seq<TimeModel>, time: usize)
    requires
        times_sum_fits(rows),
        forall|i: int| 0 <= i < rows.len() ==> 0 <= (#[trigger] rows[i]).min,
        forall|i: int| 0 <= i < rows.len() ==> 0 <= (#[trigger] rows[i]).max,
    ensures
        ({
            let sum = time_sum(rows);
            &&& sum.total == total_of(rows.map_values(|r: TimeModel| r.total))
            &&& sum.counter == total_of(rows.map_values(|r: TimeModel| r.counter))
            &&& count_of(sum.times, time) == total_of(
                rows.map_values(|r: TimeModel| count_of(r.times, time) as int),
            )
            &&& sum.times.contains_key(time) <==> exists|i: int|
                0 <= i < rows.len() && (#[trigger] rows[i]).times.contains_key(time)
            &&& forall|i: int| 0 <= i < rows.len() ==> (#[trigger] rows[i]).max <= sum.max
            &&& sum.max == 0 || exists|i: int|
                0 <= i < rows.len() && (#[trigger] rows[i]).max == sum.max
            &&& sum.max >= 0 && sum.min >= 0
            &&& forall|i: int|
                0 <= i < rows.len() && (#[trigger] rows[i]).min > 0 ==> 0 < sum.min <= rows[i].min
            &&& sum.min > 0 ==> exists|i: int|
                0 <= i < rows.len() && (#[trigger] rows[i]).min == sum.min
        }),
    decreases rows.len(),
{
    let totals = rows.map_values(|r: TimeModel| r.total);
    let counters = rows.map_values(|r: TimeModel| r.counter);
    let counts = rows.map_values(|r: TimeModel| count_of(r.times, time) as int);
    let sum = time_sum(rows);
    if rows.len() > 0 {
        let (rest, last) = (rows.drop_last(), rows.last());
        assert forall|i: int| 0 <= i < rest.len() implies 0 <= (#[trigger] rest[i]).min && 0
            <= rest[i].max by {
            assert(0 <= rows[i].min && 0 <= rows[i].max);
        }
        assert(rows[rows.len() - 1] == last);
        time_sums_count_every_row(rest, time);
        let before = time_sum(rest);
        let rest_totals = rest.map_values(|r: TimeModel| r.total);
        let rest_counters = rest.map_values(|r: TimeModel| r.counter);
        let rest_counts = rest.map_values(|r: TimeModel| count_of(r.times, time) as int);
        totals_add_up(rest_totals, rest_totals, last.total);
        totals_add_up(rest_counters, rest_counters, last.counter);
        totals_add_up(rest_counts, rest_counts, count_of(last.times, time) as int);
        assert(totals =~= rest_totals.push(last.total));
        assert(counters =~= rest_counters.push(last.counter));
        assert(counts =~= rest_counts.push(count_of(last.times, time) as int));
        merging_adds_counts(before.times, last.times, time);
        assert forall|i: int| 0 <= i < rows.len() implies (#[trigger] rows[i]).max <= sum.max && (
        rows[i].min > 0 ==> 0 < sum.min <= rows[i].min) by {
            if i < rest.len() {
                assert(rest[i] == rows[i]);
            }
        }
        if before.times.contains_key(time) {
            let i = choose|i: int|
                0 <= i < rest.len() && (#[trigger] rest[i]).times.contains_key(time);
            assert(rows[i].times.contains_key(time));
        }
        if exists|i: int| 0 <= i < rows.len() && (#[trigger] rows[i]).times.contains_key(time) {
            let i = choose|i: int|
                0 <= i < rows.len() && (#[trigger] rows[i]).times.contains_key(time);
            if i < rest.len() {
                assert(rest[i].times.contains_key(time));
            }
        }
        if sum.max != 0 && sum.max != last.max {
            let i = choose|i: int| 0 <= i < rest.len() && (#[trigger] rest[i]).max == before.max;
            assert(rows[i].max == sum.max);
        }
        if sum.min > 0 && sum.min != last.min {
            let i = choose|i: int| 0 <= i < rest.len() && (#[trigger] rest[i]).min == before.min;
            assert(rows[i].min == sum.min);
        }
    }
}

/// The averages that a table of times needs are, for each row, its times by their number; and where
/// there is more than one row, the times of all rows by the number of all of them.
pub proof fn averages_follow_the_rows(rows: Seq<TimeModel>, i: int)
    requires
        0 <= i < rows.len(),
        times_sum_fits(rows),
        forall|j: int| 0 <= j < rows.len() ==> 0 <= (#[trigger] rows[j]).min && 0 <= rows[j].max,
        forall|j: int|
            0 <= j < rows.len() ==> 0 <= (#[trigger] rows[j]).total <= usize::MAX && 0
                <= rows[j].counter <= usize::MAX,
        0 <= time_sum(rows).total <= usize::MAX,
        0 <= time_sum(rows).counter <= usize::MAX,
    ensures
        ({
            let averages = table_averages(rows);
            let total = total_of(rows.map_values(|r: TimeModel| r.total));
            let counter = total_of(rows.map_values(|r: TimeModel| r.counter));
            &&& averages.len() == rows.len() + if rows.len() > 1 {
                1int
            } else {
                0
            }
            &&& is_fraction_of(averages[i], rows[i].total, rows[i].counter, rows[i].counter > 0)
            &&& rows.len() > 1 ==> is_fraction_of(
                averages[rows.len() as int],
                total,
                counter,
                counter > 0,
            )
        }),
{
    time_sums_count_every_row(rows, 0);
}

/// The line for a name in a table of times shows its average, the shortest, the longest and the
/// middle one of its times; the numbers can be read back.
pub proof fn time_rows_show_their_times(name: Seq<char>, row: TimeModel, average: Figure)
    requires
        0 <= row.min <= usize::MAX,
        0 <= row.max <= usize::MAX,
        0 <= row.counter <= usize::MAX,
    ensures
        ({
            let middle = displayed_time(
                row.times,
                ((row.counter + 1) / 2) as nat,
                row.min as usize,
                row.max as usize,
            );
            let (min, max, median) = (
                grouped(row.min as nat),
                grouped(row.max as nat),
                grouped(middle as nat),
            );
            &&& value_of(min) == row.min
            &&& value_of(max) == row.max
            &&& value_of(median) == middle
            &&& time_row(name, row, average) == time_line(
                name,
                shown(average),
                min,
                max,
                median,
                11,
                10,
            )
        }),
{
    numbers_can_be_read_back(row.min as nat);
    numbers_can_be_read_back(row.max as nat);
    numbers_can_be_read_back(median_of(row) as nat);
}

/// A table of times has one line for each name, which shows the times and the average of that name.
/// Where it has more than one row, its last line shows those of all rows; else there is no such
/// line.
pub proof fn time_tables_have_a_line_for_each_name(
    names: Seq<Seq<char>>,
    rows: Seq<TimeModel>,
    averages: Seq<Figure>,
    i: int,
)
    requires
        0 <= i < names.len(),
    ensures
        time_rows(names, rows, averages).len() == names.len(),
        time_rows(names, rows, averages)[i] == time_row(names[i], rows[i], averages[i]),
        rows.len() <= 1 ==> time_footer(rows, averages).len() == 0,
        rows.len() > 1 ==> time_footer(rows, averages) == time_rule() + time_row(
            seq!['A', 'g', 'g', 'r', 'e', 'g', 'a', 't', 'e', 'd'],
            time_sum(rows),
            averages[rows.len() as int],
        ),
{
    lemma_aggregated();
}

/// For every row of the table of percentiles, and for all rows together where there is more than
/// one, six ranks are asked for: 50%, 75%, 98%, 99%, 99.9% and 99.99% of its number of requests.
pub proof fn ranks_are_asked_as_headed(rows: Seq<TimeModel>, i: int)
    requires
        0 <= i < rows.len(),
        times_sum_fits(rows),
        forall|j: int| 0 <= j < rows.len() ==> 0 <= (#[trigger] rows[j]).min && 0 <= rows[j].max,
        forall|j: int| 0 <= j < rows.len() ==> 0 <= (#[trigger] rows[j]).counter <= usize::MAX,
        0 <= time_sum(rows).counter <= usize::MAX,
    ensures
        ({
            let asked = table_queries(rows);
            let counter = total_of(rows.map_values(|r: TimeModel| r.counter));
            let last = 6 * rows.len() as int;
            &&& asked.len() == if rows.len() > 1 {
                6 * rows.len() + 6
            } else {
                6 * rows.len()
            }
            &&& forall|column: int|
                0 <= column < 6 ==> (#[trigger] asked[6 * i + column]).total == rows[i].counter
            &&& asked[6 * i].ten_thousandths == 5000
            &&& asked[6 * i + 1].ten_thousandths == 7500
            &&& asked[6 * i + 2].ten_thousandths == 9800
            &&& asked[6 * i + 3].ten_thousandths == 9900
            &&& asked[6 * i + 4].ten_thousandths == 9990
            &&& asked[6 * i + 5].ten_thousandths == 9999
            &&& rows.len() > 1 ==> {
                &&& forall|column: int|
                    0 <= column < 6 ==> (#[trigger] asked[last + column]).total == counter
                &&& asked[last].ten_thousandths == 5000
                &&& asked[last + 1].ten_thousandths == 7500
                &&& asked[last + 2].ten_thousandths == 9800
                &&& asked[last + 3].ten_thousandths == 9900
                &&& asked[last + 4].ten_thousandths == 9990
                &&& asked[last + 5].ten_thousandths == 9999
            }
        }),
{
    time_sums_count_every_row(rows, 0);
    lemma_row_asked(rows, i);
    let asked = table_queries(rows);
    let last = 6 * rows.len() as int;
    assert forall|column: int| 0 <= column < 6 implies #[trigger] asked[6 * i + column]
        == row_queries(rows[i].counter)[column] by {
        assert(asked[6 * i + column] == queries_of_rows(rows)[6 * i + column]);
    }
    assert(asked[6 * i + 0] == row_queries(rows[i].counter)[0]);
    if rows.len() > 1 {
        assert forall|column: int| 0 <= column < 6 implies #[trigger] asked[last + column]
            == row_queries(time_sum(rows).counter)[column] by {}
        assert(asked[last + 0] == row_queries(time_sum(rows).counter)[0]);
    }
}

proof fn lemma_asked_len(rows: Seq<TimeModel>)
    ensures
        queries_of_rows(rows).len() == 6 * rows.len(),
    decreases rows.len(),
{
    if rows.len() > 0 {
        lemma_asked_len(rows.drop_last());
    }
}

proof fn lemma_row_asked(rows: Seq<TimeModel>, i: int)
    requires
        0 <= i < rows.len(),
    ensures
        queries_of_rows(rows).len() == 6 * rows.len(),
        queries_of_rows(rows).subrange(6 * i, 6 * i + 6) == row_queries(rows[i].counter),
        forall|column: int|
            0 <= column < 6 ==> #[trigger] queries_of_rows(rows)[6 * i + column] == row_queries(
                rows[i].counter,
            )[column],
    decreases rows.len(),
{
    let rest = rows.drop_last();
    lemma_asked_len(rows);
    lemma_asked_len(rest);
    let asked = queries_of_rows(rows);
    if i < rest.len() {
        lemma_row_asked(rest, i);
        assert(rest[i] == rows[i]);
        assert(asked.subrange(6 * i, 6 * i + 6) =~= queries_of_rows(rest).subrange(
            6 * i,
            6 * i + 6,
        ));
    } else {
        assert(asked.subrange(6 * i, 6 * i + 6) =~= row_queries(rows[i].counter));
    }
    assert forall|column: int| 0 <= column < 6 implies #[trigger] asked[6 * i + column]
        == row_queries(rows[i].counter)[column] by {
        assert(asked.subrange(6 * i, 6 * i + 6)[column] == asked[6 * i + column]);
    }
}

/// A line of the table of percentiles shows six times: those at the six ranks that were worked out
/// for it, in their order; the numbers can be read back.
pub proof fn percentile_rows_show_their_ranks(
    name: Seq<char>,
    row: TimeModel,
    ranks: Seq<usize>,
    start: int,
)
    ensures
        ({
            let time = |column: int|
                displayed_time(
                    row.times,
                    ranks[start + column] as nat,
                    row.min as usize,
                    row.max as usize,
                ) as nat;
            &&& percentile_row(name, row, ranks, start) == percentile_line(
                name,
                seq![
                    grouped(time(0)),
                    grouped(time(1)),
                    grouped(time(2)),
                    grouped(time(3)),
                    grouped(time(4)),
                    grouped(time(5)),
                ],
            )
            &&& forall|column: int| value_of(grouped(#[trigger] time(column))) == time(column)
        }),
{
    let time = |column: int|
        displayed_time(
            row.times,
            ranks[start + column] as nat,
            row.min as usize,
            row.max as usize,
        ) as nat;
    assert forall|column: int| value_of(grouped(#[trigger] time(column))) == time(column) by {
        numbers_can_be_read_back(time(column));
    }
    let cells = Seq::new(
        6,
        |column: int|
            grouped(
                displayed_time(
                    row.times,
                    ranks[start + column] as nat,
                    row.min as usize,
                    row.max as usize,
                ) as nat,
            ),
    );
    assert(cells =~= seq![
        grouped(time(0)),
        grouped(time(1)),
        grouped(time(2)),
        grouped(time(3)),
        grouped(time(4)),
        grouped(time(5)),
    ]);
}

/// The table of percentiles has one line for each name, which shows its times at the six ranks of
/// that name. Where it has more than one row, its last line shows those of all rows; else there is
/// no such line.
pub proof fn percentile_tables_have_a_line_for_each_name(
    names: Seq<Seq<char>>,
    rows: Seq<TimeModel>,
    ranks: Seq<usize>,
    i: int,
)
    requires
        0 <= i < names.len(),
    ensures
        percentile_rows(names, rows, ranks).len() == names.len(),
        percentile_rows(names, rows, ranks)[i] == percentile_row(
            names[i],
            rows[i],
            ranks,
            6 * i,
        ),
        rows.len() <= 1 ==> percentile_footer(rows, ranks).len() == 0,
        rows.len() > 1 ==> percentile_footer(rows, ranks) == percentile_rule() + percentile_row(
            seq!['A', 'g', 'g', 'r', 'e', 'g', 'a', 't', 'e', 'd'],
            time_sum(rows),
            ranks,
            6 * rows.len() as int,
        ),
{
    lemma_aggregated();
}

/// How often a time was seen in all rows.
pub open spec fn time_total(rows: Seq<TimeModel>, time: usize) -> int {
    total_of(rows.map_values(|r: TimeModel| count_of(r.times, time) as int))
}

proof fn lemma_row_totals(rows: Seq<TimeModel>, time: usize)
    requires
        rows.len() > 0,
    ensures
        time_total(rows, time) == time_total(rows.drop_last(), time) + count_of(
            rows.last().times,
            time,
        ),
        total_of(rows.map_values(|r: TimeModel| r.total)) == total_of(
            rows.drop_last().map_values(|r: TimeModel| r.total),
        ) + rows.last().total,
        total_of(rows.map_values(|r: TimeModel| r.counter)) == total_of(
            rows.drop_last().map_values(|r: TimeModel| r.counter),
        ) + rows.last().counter,
{
    let (rest, last) = (rows.drop_last(), rows.last());
    let rest_totals = rest.map_values(|r: TimeModel| r.total);
    let rest_counters = rest.map_values(|r: TimeModel| r.counter);
    let rest_counts = rest.map_values(|r: TimeModel| count_of(r.times, time) as int);
    totals_add_up(rest_totals, rest_totals, last.total);
    totals_add_up(rest_counters, rest_counters, last.counter);
    totals_add_up(rest_counts, rest_counts, count_of(last.times, time) as int);
    assert(rows.map_values(|r: TimeModel| r.total) =~= rest_totals.push(last.total));
    assert(rows.map_values(|r: TimeModel| r.counter) =~= rest_counters.push(last.counter));
    assert(rows.map_values(|r: TimeModel| count_of(r.times, time) as int) =~= rest_counts.push(
        count_of(last.times, time) as int,
    ));
}

/// The times of rows can be taken together exactly where they, their numbers, and how often each of
/// them was seen, added up, are not too large.
pub proof fn times_are_taken_together_where_they_fit(rows: Seq<TimeModel>)
    requires
        forall|i: int|
            0 <= i < rows.len() ==> 0 <= (#[trigger] rows[i]).total && 0 <= rows[i].counter,
    ensures
        times_sum_fits(rows) <==> {
            &&& total_of(rows.map_values(|r: TimeModel| r.total)) <= usize::MAX
            &&& total_of(rows.map_values(|r: TimeModel| r.counter)) <= usize::MAX
            &&& forall|time: usize| #[trigger] time_total(rows, time) <= usize::MAX
        },
        times_sum_fits(rows) ==> {
            &&& time_sum(rows).total == total_of(rows.map_values(|r: TimeModel| r.total))
            &&& time_sum(rows).counter == total_of(rows.map_values(|r: TimeModel| r.counter))
            &&& forall|time: usize|
                count_of(time_sum(rows).times, time) == #[trigger] time_total(rows, time)
        },
        0 <= total_of(rows.map_values(|r: TimeModel| r.total)),
        0 <= total_of(rows.map_values(|r: TimeModel| r.counter)),
    decreases rows.len(),
{
    if rows.len() == 0 {
        assert(rows.map_values(|r: TimeModel| r.total) =~= Seq::empty());
        assert(rows.map_values(|r: TimeModel| r.counter) =~= Seq::empty());
        assert forall|time: usize| #[trigger] time_total(rows, time) == 0 by {
            assert(rows.map_values(|r: TimeModel| count_of(r.times, time) as int)
                =~= Seq::empty());
        }
    } else {
        let (rest, last) = (rows.drop_last(), rows.last());
        assert forall|i: int| 0 <= i < rest.len() implies 0 <= (#[trigger] rest[i]).total && 0
            <= rest[i].counter by {
            assert(0 <= rows[i].total && 0 <= rows[i].counter);
        }
        assert(rows[rows.len() - 1] == last);
        times_are_taken_together_where_they_fit(rest);
        lemma_row_totals(rows, 0);
        assert forall|time: usize| #[trigger] time_total(rows, time) == time_total(rest, time)
            + count_of(last.times, time) by {
            lemma_row_totals(rows, time);
        }
        if forall|time: usize| #[trigger] time_total(rows, time) <= usize::MAX {
            assert forall|time: usize| #[trigger] time_total(rest, time) <= usize::MAX by {
                assert(time_total(rows, time) <= usize::MAX);
            }
            if times_sum_fits(rest) {
                assert forall|time: usize| #[trigger] count_of(time_sum(rest).times, time)
                    + count_of(last.times, time) <= usize::MAX by {
                    assert(time_total(rows, time) <= usize::MAX);
                    assert(count_of(time_sum(rest).times, time) == time_total(rest, time));
                }
            }
        }
        if times_sum_fits(rows) {
            assert forall|time: usize|
                count_of(time_sum(rows).times, time) == #[trigger] time_total(rows, time)
                    && time_total(rows, time) <= usize::MAX by {
                merging_adds_counts(time_sum(rest).times, last.times, time);
                assert(count_of(time_sum(rest).times, time) == time_total(rest, time));
                assert(count_of(time_sum(rest).times, time) + count_of(last.times, time)
                    <= usize::MAX);
            }
        }
    }
}

} // verus!
