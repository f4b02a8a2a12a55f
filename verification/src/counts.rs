//! How often something was done and how often it failed, row by row and in all.

use crate::figures::{
    fail_ratio, fail_share, figure_text, per_second_calculations, percentage_text, quotient, shown,
    shown_percentage, Figure, Ratio,
};
use crate::layout::{count_line, count_rule, write_count_line};
use crate::text::{format_number, grouped};
use vstd::prelude::*;

verus! {

/// How often something was done, and how many of these times it failed.
#[derive(Debug, Clone, Copy, PartialEq, Eq, Structural)]
pub struct Tally {
    pub total: usize,
    pub fail: usize,
}

/// What a `Tally` says.
pub struct TallyModel {
    pub total: int,
    pub fail: int,
}

impl View for Tally {
    type V = TallyModel;

    open spec fn view(&self) -> TallyModel {
        TallyModel { total: self.total as int, fail: self.fail as int }
    }
}

impl TallyModel {
    /// The tally of `success` and `fail` times.
    pub open spec fn of(success: int, fail: int) -> TallyModel {
        TallyModel { total: success + fail, fail }
    }
}

/// What tallies say.
pub open spec fn tally_models(tallies: Seq<Tally>) -> Seq<TallyModel> {
    tallies.map_values(|t: Tally| t@)
}

/// The tallies taken together.
pub open spec fn tally_sum(tallies: Seq<TallyModel>) -> TallyModel
    decreases tallies.len(),
{
    if tallies.len() == 0 {
        TallyModel { total: 0, fail: 0 }
    } else {
        let before = tally_sum(tallies.drop_last());
        TallyModel {
            total: before.total + tallies.last().total,
            fail: before.fail + tallies.last().fail,
        }
    }
}

/// Nothing failed more often than it was done.
pub open spec fn tallies_valid(tallies: Seq<TallyModel>) -> bool {
    forall|i: int|
        0 <= i < tallies.len() ==> 0 <= (#[trigger] tallies[i]).fail <= tallies[i].total
}

/// The tallies taken together are numbers that the tables can hold.
pub open spec fn tallies_fit(tallies: Seq<TallyModel>) -> bool {
    tally_sum(tallies).total <= usize::MAX
}

proof fn lemma_partial_sum(tallies: Seq<TallyModel>, n: int)
    requires
        tallies_valid(tallies),
        0 <= n <= tallies.len(),
    ensures
        0 <= tally_sum(tallies.take(n)).fail <= tally_sum(tallies.take(n)).total,
        tally_sum(tallies.take(n)).total <= tally_sum(tallies).total,
        n < tallies.len() ==> tally_sum(tallies.take(n + 1)).total == tally_sum(
            tallies.take(n),
        ).total + tallies[n].total,
        n < tallies.len() ==> tally_sum(tallies.take(n + 1)).fail == tally_sum(
            tallies.take(n),
        ).fail + tallies[n].fail,
    decreases tallies.len() - n, n,
{
    if n < tallies.len() {
        assert(tallies.take(n + 1).drop_last() =~= tallies.take(n));
    }
    lemma_fails_bounded(tallies.take(n));
    if n == tallies.len() {
        assert(tallies.take(n) =~= tallies);
    } else {
        lemma_partial_sum(tallies, n + 1);
    }
}

proof fn lemma_fails_bounded(tallies: Seq<TallyModel>)
    requires
        tallies_valid(tallies),
    ensures
        0 <= tally_sum(tallies).fail <= tally_sum(tallies).total,
    decreases tallies.len(),
{
    if tallies.len() > 0 {
        lemma_fails_bounded(tallies.drop_last());
        assert(tallies.last() == tallies[tallies.len() - 1]);
    }
}

/// The tallies of pairs that say how often something succeeded and how often it failed.
pub open spec fn tallies_of(counts: Seq<(usize, usize)>) -> Seq<TallyModel> {
    counts.map_values(|c: (usize, usize)| TallyModel::of(c.0 as int, c.1 as int))
}

/// The tallies of pairs that say how often something succeeded and how often it failed. There are
/// none where their sum is too large.
pub fn tally_list(counts: &Vec<(usize, usize)>) -> (r: Option<Vec<Tally>>)
    ensures
        r is Some <==> tallies_fit(tallies_of(counts@)),
        r matches Some(tallies) ==> tallies@.len() == counts@.len() && tally_models(tallies@)
            == tallies_of(counts@),
        tallies_valid(tallies_of(counts@)),
{
    let ghost all = tallies_of(counts@);
    let mut sum: usize = 0;
    let mut out: Vec<Tally> = Vec::new();
    let mut i: usize = 0;
    assert(all.take(0) =~= Seq::<TallyModel>::empty());
    while i < counts.len()
        invariant
            i <= counts@.len(),
            all == tallies_of(counts@),
            tallies_valid(all),
            sum == tally_sum(all.take(i as int)).total,
            out@.len() == i,
            forall|j: int| 0 <= j < i ==> (#[trigger] out@[j])@ == all[j],
        decreases counts@.len() - i,
    {
        let (success, fail): (usize, usize) = counts[i];
        proof {
            lemma_partial_sum(all, i as int);
            lemma_partial_sum(all, i + 1);
            assert(all[i as int] == TallyModel::of(success as int, fail as int));
        }
        match success.checked_add(fail) {
            Some(total) => match sum.checked_add(total) {
                Some(new_sum) => {
                    sum = new_sum;
                    out.push(Tally { total, fail });
                },
                None => {
                    return None;
                },
            },
            None => {
                return None;
            },
        }
        i += 1;
    }
    assert(all.take(counts@.len() as int) =~= all);
    assert(tally_models(out@) =~= all);
    Some(out)
}

/// Takes tallies together.
pub fn sum_of_tallies(tallies: &Vec<Tally>) -> (r: Tally)
    requires
        tallies_valid(tally_models(tallies@)),
        tallies_fit(tally_models(tallies@)),
    ensures
        r@ == tally_sum(tally_models(tallies@)),
        r.fail <= r.total,
{
    let ghost all = tally_models(tallies@);
    let mut sum = Tally { total: 0, fail: 0 };
    let mut i: usize = 0;
    assert(all.take(0) =~= Seq::<TallyModel>::empty());
    while i < tallies.len()
        invariant
            i <= tallies@.len(),
            all == tally_models(tallies@),
            tallies_valid(all),
            tallies_fit(all),
            sum@ == tally_sum(all.take(i as int)),
        decreases tallies@.len() - i,
    {
        proof {
            lemma_partial_sum(all, i as int);
            lemma_partial_sum(all, i + 1);
            assert(all[i as int] == tallies@[i as int]@);
        }
        sum = Tally { total: sum.total + tallies[i].total, fail: sum.fail + tallies[i].fail };
        i += 1;
    }
    proof {
        assert(all.take(tallies@.len() as int) =~= all);
        lemma_fails_bounded(all);
    }
    sum
}

/// The fractions that a row of a table of counts shows.
#[derive(Debug, Clone, Copy, PartialEq, Eq, Structural)]
pub struct CountRatios {
    /// The part that failed.
    pub fail_percent: Ratio,
    /// How often for each second.
    pub per_second: Ratio,
    /// How many failures for each second.
    pub fails_per_second: Ratio,
}

/// The fractions of a row, worked out.
#[derive(Debug, Clone, PartialEq, Eq)]
pub struct CountFigures {
    /// The part that failed, as a percentage.
    pub fail_percent: Figure,
    /// How often for each second.
    pub per_second: Figure,
    /// How many failures for each second.
    pub fails_per_second: Figure,
}

/// The fractions of one row, of a load test that ran for `duration` seconds.
pub open spec fn row_ratios(duration: usize, tally: TallyModel) -> CountRatios {
    CountRatios {
        fail_percent: fail_ratio(tally.total, tally.fail),
        per_second: quotient(tally.total, duration as int),
        fails_per_second: quotient(tally.fail, duration as int),
    }
}

/// The fractions of a table of counts: one for each row, and one for the aggregate where there is
/// more than one row.
pub open spec fn table_ratios(duration: usize, tallies: Seq<TallyModel>) -> Seq<CountRatios> {
    let rows = tallies.map_values(|t: TallyModel| row_ratios(duration, t));
    if tallies.len() > 1 {
        rows.push(row_ratios(duration, tally_sum(tallies)))
    } else {
        rows
    }
}

fn ratios_of_row(duration: usize, tally: Tally) -> (r: CountRatios)
    requires
        tally.fail <= tally.total,
    ensures
        r == row_ratios(duration, tally@),
{
    let (per_second, fails_per_second) = per_second_calculations(duration, tally.total, tally.fail);
    CountRatios { fail_percent: fail_share(tally.total, tally.fail), per_second, fails_per_second }
}

/// The fractions that a table of counts shows.
pub fn ratios_of_table(duration: usize, tallies: &Vec<Tally>) -> (r: Vec<CountRatios>)
    requires
        tallies_valid(tally_models(tallies@)),
        tallies_fit(tally_models(tallies@)),
    ensures
        r@ == table_ratios(duration, tally_models(tallies@)),
{
    let ghost all = tally_models(tallies@);
    let mut out: Vec<CountRatios> = Vec::new();
    let mut i: usize = 0;
    while i < tallies.len()
        invariant
            i <= tallies@.len(),
            all == tally_models(tallies@),
            tallies_valid(all),
            out@.len() == i,
            forall|j: int| 0 <= j < i ==> #[trigger] out@[j] == row_ratios(duration, all[j]),
        decreases tallies@.len() - i,
    {
        assert(all[i as int] == tallies@[i as int]@);
        out.push(ratios_of_row(duration, tallies[i]));
        i += 1;
    }
    assert(out@ =~= all.map_values(|t: TallyModel| row_ratios(duration, t)));
    if tallies.len() > 1 {
        out.push(ratios_of_row(duration, sum_of_tallies(tallies)));
    }
    out
}

/// What the column of failures shows: their number and, in parentheses, their percentage.
pub open spec fn fails_cell(fail: int, percent: Figure) -> Seq<char> {
    grouped(fail as nat) + " ("@ + shown_percentage(percent) + "%)"@
}

/// A row of a table of counts.
pub open spec fn count_row(name: Seq<char>, tally: TallyModel, figures: CountFigures) -> Seq<char> {
    count_line(
        name,
        grouped(tally.total as nat),
        fails_cell(tally.fail, figures.fail_percent),
        shown(figures.per_second),
        shown(figures.fails_per_second),
    )
}

/// Writes a row of a table of counts.
pub(crate) fn write_count_row(name: &str, tally: Tally, figures: &CountFigures) -> (r: String)
    ensures
        r@ == count_row(name@, tally@, *figures),
{
    let mut fails = format_number(tally.fail);
    fails.append(" (");
    fails.append(percentage_text(&figures.fail_percent));
    fails.append("%)");
    write_count_line(
        name,
        format_number(tally.total).as_str(),
        fails.as_str(),
        figure_text(&figures.per_second),
        figure_text(&figures.fails_per_second),
    )
}

/// The rows of a table of counts.
pub open spec fn count_rows(
    names: Seq<Seq<char>>,
    tallies: Seq<TallyModel>,
    figures: Seq<CountFigures>,
) -> Seq<Seq<char>> {
    Seq::new(names.len(), |i: int| count_row(names[i], tallies[i], figures[i]))
}

/// Writes the rows of a table of counts.
pub(crate) fn write_count_rows(
    names: &Vec<String>,
    tallies: &Vec<Tally>,
    figures: &Vec<CountFigures>,
) -> (r: Vec<String>)
    requires
        tallies@.len() == names@.len(),
        figures@.len() >= names@.len(),
    ensures
        crate::order::texts(r@) == count_rows(
            crate::order::texts(names@),
            tally_models(tallies@),
            figures@,
        ),
{
    let mut out: Vec<String> = Vec::new();
    let mut i: usize = 0;
    while i < names.len()
        invariant
            i <= names@.len(),
            tallies@.len() == names@.len(),
            figures@.len() >= names@.len(),
            out@.len() == i,
            forall|j: int|
                0 <= j < i ==> (#[trigger] out@[j])@ == count_row(
                    names@[j]@,
                    tallies@[j]@,
                    figures@[j],
                ),
        decreases names@.len() - i,
    {
        out.push(write_count_row(names[i].as_str(), tallies[i], &figures[i]));
        i += 1;
    }
    assert(crate::order::texts(out@) =~= count_rows(
        crate::order::texts(names@),
        tally_models(tallies@),
        figures@,
    ));
    out
}

/// What follows the rows of a table of counts: their aggregate, where there is more than one row.
pub open spec fn count_footer(tallies: Seq<TallyModel>, figures: Seq<CountFigures>) -> Seq<char> {
    if tallies.len() > 1 {
        count_rule() + count_row("Aggregated"@, tally_sum(tallies), figures[tallies.len() as int])
    } else {
        Seq::empty()
    }
}

/// Writes what follows the rows of a table of counts.
pub(crate) fn write_count_footer(tallies: &Vec<Tally>, figures: &Vec<CountFigures>) -> (r: String)
    requires
        tallies_valid(tally_models(tallies@)),
        tallies_fit(tally_models(tallies@)),
        tallies@.len() > 1 ==> figures@.len() > tallies@.len(),
    ensures
        r@ == count_footer(tally_models(tallies@), figures@),
{
    let mut out = String::new();
    if tallies.len() > 1 {
        out = " -------------------------+---------------+----------------+----------+--------\n".to_string();
        out.append(
            write_count_row(
                "Aggregated",
                sum_of_tallies(tallies),
                &figures[tallies.len()],
            ).as_str(),
        );
    }
    out
}

/// The tallies of two lists of rows add up to the tally of all rows.
pub proof fn tallies_add_up(a: Seq<TallyModel>, b: Seq<TallyModel>)
    ensures
        tally_sum(a + b) == (TallyModel {
            total: tally_sum(a).total + tally_sum(b).total,
            fail: tally_sum(a).fail + tally_sum(b).fail,
        }),
    decreases b.len(),
{
    if b.len() == 0 {
        assert(a + b =~= a);
    } else {
        assert((a + b).drop_last() =~= a + b.drop_last());
        tallies_add_up(a, b.drop_last());
    }
}

/// Tallies are read one by one, and pairs of successes and failures are tallied one by one.
pub proof fn tallies_are_read_one_by_one(
    tallies: Seq<Tally>,
    counts: Seq<(usize, usize)>,
    i: int,
)
    ensures
        tally_models(tallies).len() == tallies.len(),
        0 <= i < tallies.len() ==> tally_models(tallies)[i].total == tallies[i].total
            && tally_models(tallies)[i].fail == tallies[i].fail,
        tallies_of(counts).len() == counts.len(),
        0 <= i < counts.len() ==> tallies_of(counts)[i].total == counts[i].0 + counts[i].1
            && tallies_of(counts)[i].fail == counts[i].1,
{
}

/// Tallies can be added up exactly where their totals together are not too large.
pub proof fn tallies_fit_where_their_totals_do(tallies: Seq<TallyModel>)
    ensures
        tallies_fit(tallies) <==> tally_sum(tallies).total <= usize::MAX,
{
}

} // verus!
