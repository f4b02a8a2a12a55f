//! The lines that the tables are made of.

use crate::text::{align_left, align_right, left_aligned, right_aligned};
use vstd::prelude::*;

verus! {

/// Sequences one after the other.
pub open spec fn joined<T>(parts: Seq<Seq<T>>) -> Seq<T>
    decreases parts.len(),
{
    if parts.len() == 0 {
        Seq::empty()
    } else {
        joined(parts.drop_last()) + parts.last()
    }
}

/// Joins the strings from `start` up to `end`.
pub(crate) fn join_range(parts: &Vec<String>, start: usize, end: usize) -> (r: String)
    requires
        start <= end <= parts@.len(),
    ensures
        r@ == joined(crate::order::texts(parts@).subrange(start as int, end as int)),
{
    let mut out = String::new();
    let mut i: usize = start;
    let ghost all = crate::order::texts(parts@);
    assert(all.subrange(start as int, start as int) =~= Seq::<Seq<char>>::empty());
    while i < end
        invariant
            start <= i <= end <= parts@.len(),
            all == crate::order::texts(parts@),
            out@ == joined(all.subrange(start as int, i as int)),
        decreases end - i,
    {
        out.append(parts[i].as_str());
        proof {
            let longer = all.subrange(start as int, i + 1);
            assert(longer.drop_last() =~= all.subrange(start as int, i as int));
            assert(longer.last() == parts@[i as int]@);
        }
        i += 1;
    }
    out
}

/// The line between the parts of a heading.
pub open spec fn rule() -> Seq<char> {
    " ------------------------------------------------------------------------------\n"@
}

/// A line of a table of counts.
pub open spec fn count_line(
    name: Seq<char>,
    total: Seq<char>,
    fails: Seq<char>,
    rate: Seq<char>,
    fail_rate: Seq<char>,
) -> Seq<char> {
    " "@ + left_aligned(name, 24) + " | "@ + right_aligned(total, 13) + " | "@ + right_aligned(
        fails,
        14,
    ) + " | "@ + right_aligned(rate, 8) + " | "@ + right_aligned(fail_rate, 7) + "\n"@
}

/// Writes a line of a table of counts.
pub(crate) fn write_count_line(
    name: &str,
    total: &str,
    fails: &str,
    rate: &str,
    fail_rate: &str,
) -> (r: String)
    ensures
        r@ == count_line(name@, total@, fails@, rate@, fail_rate@),
{
    let mut out = " ".to_string();
    out.append(align_left(name, 24).as_str());
    out.append(" | ");
    out.append(align_right(total, 13).as_str());
    out.append(" | ");
    out.append(align_right(fails, 14).as_str());
    out.append(" | ");
    out.append(align_right(rate, 8).as_str());
    out.append(" | ");
    out.append(align_right(fail_rate, 7).as_str());
    out.append("\n");
    out
}

/// The line above the aggregate of a table of counts.
pub open spec fn count_rule() -> Seq<char> {
    " -------------------------+---------------+----------------+----------+--------\n"@
}

/// A line of a table of times, whose last three columns have the given widths.
pub open spec fn time_line(
    name: Seq<char>,
    average: Seq<char>,
    min: Seq<char>,
    max: Seq<char>,
    median: Seq<char>,
    max_width: nat,
    median_width: nat,
) -> Seq<char> {
    " "@ + left_aligned(name, 24) + " | "@ + right_aligned(average, 11) + " | "@ + right_aligned(
        min,
        10,
    ) + " | "@ + right_aligned(max, max_width) + " | "@ + right_aligned(median, median_width)
        + "\n"@
}

/// Writes a line of a table of times.
pub(crate) fn write_time_line(
    name: &str,
    average: &str,
    min: &str,
    max: &str,
    median: &str,
    max_width: usize,
    median_width: usize,
) -> (r: String)
    ensures
        r@ == time_line(
            name@,
            average@,
            min@,
            max@,
            median@,
            max_width as nat,
            median_width as nat,
        ),
{
    let mut out = " ".to_string();
    out.append(align_left(name, 24).as_str());
    out.append(" | ");
    out.append(align_right(average, 11).as_str());
    out.append(" | ");
    out.append(align_right(min, 10).as_str());
    out.append(" | ");
    out.append(align_right(max, max_width).as_str());
    out.append(" | ");
    out.append(align_right(median, median_width).as_str());
    out.append("\n");
    out
}

/// The line above the aggregate of a table of times.
pub open spec fn time_rule() -> Seq<char> {
    " -------------------------+-------------+------------+-------------+-----------\n"@
}

/// A line of the table of percentiles.
pub open spec fn percentile_line(name: Seq<char>, cells: Seq<Seq<char>>) -> Seq<char> {
    " "@ + left_aligned(name, 24) + percentile_cells(cells) + "\n"@
}

/// The cells that follow the name in the table of percentiles.
pub open spec fn percentile_cells(cells: Seq<Seq<char>>) -> Seq<char>
    decreases cells.len(),
{
    if cells.len() == 0 {
        Seq::empty()
    } else {
        percentile_cells(cells.drop_last()) + (" | "@ + right_aligned(cells.last(), 6))
    }
}

/// Writes a line of the table of percentiles.
pub(crate) fn write_percentile_line(name: &str, cells: &Vec<String>) -> (r: String)
    ensures
        r@ == percentile_line(name@, crate::order::texts(cells@)),
{
    let ghost all = crate::order::texts(cells@);
    let mut row = String::new();
    let mut i: usize = 0;
    assert(all.take(0) =~= Seq::<Seq<char>>::empty());
    while i < cells.len()
        invariant
            i <= cells@.len(),
            all == crate::order::texts(cells@),
            row@ == percentile_cells(all.take(i as int)),
        decreases cells@.len() - i,
    {
        let mut cell = " | ".to_string();
        cell.append(align_right(cells[i].as_str(), 6).as_str());
        row.append(cell.as_str());
        proof {
            let longer = all.take(i + 1);
            assert(longer.drop_last() =~= all.take(i as int));
            assert(longer.last() == cells@[i as int]@);
        }
        i += 1;
    }
    assert(all.take(cells@.len() as int) =~= all);
    let mut out = " ".to_string();
    out.append(align_left(name, 24).as_str());
    out.append(row.as_str());
    out.append("\n");
    out
}

/// The line above the aggregate of the table of percentiles.
pub open spec fn percentile_rule() -> Seq<char> {
    " -------------------------+--------+--------+--------+--------+--------+-------\n"@
}

/// A line of the table of status codes.
pub open spec fn code_line(name: Seq<char>, codes: Seq<char>) -> Seq<char> {
    " "@ + left_aligned(name, 24) + " | "@ + right_aligned(codes, 51)
}

/// Writes a line of the table of status codes, without its end.
pub(crate) fn write_code_line(name: &str, codes: &str) -> (r: String)
    ensures
        r@ == code_line(name@, codes@),
{
    let mut out = " ".to_string();
    out.append(align_left(name, 24).as_str());
    out.append(" | ");
    out.append(align_right(codes, 51).as_str());
    out
}

/// The line above the aggregate of the table of status codes.
pub open spec fn code_rule() -> Seq<char> {
    " -------------------------+----------------------------------------------------\n"@
}

} // verus!
