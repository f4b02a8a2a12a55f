//! What the lines of the tables look like.

use crate::layout::{
    code_line, code_rule, count_line, count_rule, joined, percentile_cells, percentile_line,
    percentile_rule, rule,
    time_line, time_rule,
};
use crate::text::{left_aligned, right_aligned};
use vstd::prelude::*;

verus! {

/// Sequences one after the other are what remains when the borders between them are dropped.
pub proof fn joining_keeps_everything<T>(parts: Seq<Seq<T>>)
    ensures
        joined(parts) == parts.flatten(),
    decreases parts.len(),
{
    parts.lemma_flatten_and_flatten_alt_are_equivalent();
    lemma_joined_alt(parts);
}

proof fn lemma_joined_alt<T>(parts: Seq<Seq<T>>)
    ensures
        joined(parts) == parts.flatten_alt(),
    decreases parts.len(),
{
    if parts.len() > 0 {
        lemma_joined_alt(parts.drop_last());
    }
}

/// What is joined can be found again: every part stands behind those before it.
pub proof fn joined_parts_stand_in_order<T>(parts: Seq<Seq<T>>, i: int)
    requires
        0 <= i < parts.len(),
    ensures
        ({
            let start = parts.take(i).flatten().len() as int;
            &&& start + parts[i].len() <= joined(parts).len()
            &&& joined(parts).subrange(start, start + parts[i].len()) == parts[i]
            &&& joined(parts).take(start) == parts.take(i).flatten()
            &&& joined(parts).skip(start + parts[i].len()) == parts.skip(i + 1).flatten()
        }),
    decreases parts.len(),
{
    joining_keeps_everything(parts.take(i));
    joining_keeps_everything(parts.skip(i + 1));
    lemma_joined_split(parts.take(i), parts.skip(i));
    lemma_joined_split(seq![parts[i]], parts.skip(i + 1));
    assert(parts =~= parts.take(i) + parts.skip(i));
    assert(parts.skip(i) =~= seq![parts[i]] + parts.skip(i + 1));
    assert(seq![parts[i]].drop_last() =~= Seq::empty());
    assert(joined(seq![parts[i]]) =~= parts[i]) by {
        reveal_with_fuel(joined, 2);
    }
    let start = joined(parts.take(i)).len() as int;
    let whole = joined(parts);
    assert(whole =~= joined(parts.take(i)) + (parts[i] + joined(parts.skip(i + 1))));
    assert(whole.subrange(start, start + parts[i].len()) =~= parts[i]);
    assert(whole.take(start) =~= joined(parts.take(i)));
    assert(whole.skip(start + parts[i].len()) =~= joined(parts.skip(i + 1)));
}

pub(crate) proof fn lemma_joined_split<T>(a: Seq<Seq<T>>, b: Seq<Seq<T>>)
    ensures
        joined(a + b) == joined(a) + joined(b),
    decreases b.len(),
{
    if b.len() == 0 {
        assert(a + b =~= a);
        assert(joined(a) + joined(b) =~= joined(a));
    } else {
        lemma_joined_split(a, b.drop_last());
        assert((a + b).drop_last() =~= a + b.drop_last());
        assert((a + b).last() == b.last());
        assert(joined(a + b) =~= joined(a) + joined(b));
    }
}

/// The text between two columns.
pub open spec fn border() -> Seq<char> {
    seq![' ', '|', ' ']
}

/// A line of cells, with a space before the first of them and borders between them.
pub open spec fn line_of(cells: Seq<Seq<char>>) -> Seq<char>
    decreases cells.len(),
{
    if cells.len() == 0 {
        Seq::empty()
    } else if cells.len() == 1 {
        seq![' '] + cells[0]
    } else {
        line_of(cells.drop_last()) + border() + cells.last()
    }
}

/// A line of a table of counts has five columns, 24, 13, 14, 8 and 7 characters wide, of which the
/// first one is left aligned.
pub proof fn count_lines_have_five_columns(
    name: Seq<char>,
    total: Seq<char>,
    fails: Seq<char>,
    rate: Seq<char>,
    fail_rate: Seq<char>,
)
    ensures
        count_line(name, total, fails, rate, fail_rate) == line_of(
            seq![
                left_aligned(name, 24),
                right_aligned(total, 13),
                right_aligned(fails, 14),
                right_aligned(rate, 8),
                right_aligned(fail_rate, 7),
            ],
        ).push('\n'),
{
    lemma_literals();
    let cells = seq![
        left_aligned(name, 24),
        right_aligned(total, 13),
        right_aligned(fails, 14),
        right_aligned(rate, 8),
        right_aligned(fail_rate, 7),
    ];
    lemma_five(cells);
    assert(count_line(name, total, fails, rate, fail_rate) =~= line_of(cells).push('\n'));
}

proof fn lemma_literals()
    ensures
        " "@ == seq![' '],
        " | "@ == border(),
        "\n"@ == seq!['\n'],
{
    reveal_strlit(" ");
    reveal_strlit(" | ");
    reveal_strlit("\n");
    assert(" "@ =~= seq![' ']);
    assert(" | "@ =~= border());
    assert("\n"@ =~= seq!['\n']);
}

proof fn lemma_five(cells: Seq<Seq<char>>)
    requires
        cells.len() == 5,
    ensures
        line_of(cells) == seq![' '] + cells[0] + border() + cells[1] + border() + cells[2]
            + border() + cells[3] + border() + cells[4],
{
    let (a, b, c, d) = (
        cells.drop_last(),
        cells.drop_last().drop_last(),
        cells.drop_last().drop_last().drop_last(),
        cells.drop_last().drop_last().drop_last().drop_last(),
    );
    assert(line_of(d) == seq![' '] + cells[0]);
    assert(line_of(c) == line_of(d) + border() + cells[1]);
    assert(line_of(b) == line_of(c) + border() + cells[2]);
    assert(line_of(a) == line_of(b) + border() + cells[3]);
    assert(line_of(cells) == line_of(a) + border() + cells[4]);
}

/// A line of a table of times has five columns, of which the first one is left aligned. The first
/// three are 24, 11 and 10 characters wide.
pub proof fn time_lines_have_five_columns(
    name: Seq<char>,
    average: Seq<char>,
    min: Seq<char>,
    max: Seq<char>,
    median: Seq<char>,
    max_width: nat,
    median_width: nat,
)
    ensures
        time_line(name, average, min, max, median, max_width, median_width) == line_of(
            seq![
                left_aligned(name, 24),
                right_aligned(average, 11),
                right_aligned(min, 10),
                right_aligned(max, max_width),
                right_aligned(median, median_width),
            ],
        ).push('\n'),
{
    lemma_literals();
    let cells = seq![
        left_aligned(name, 24),
        right_aligned(average, 11),
        right_aligned(min, 10),
        right_aligned(max, max_width),
        right_aligned(median, median_width),
    ];
    lemma_five(cells);
    assert(time_line(name, average, min, max, median, max_width, median_width) =~= line_of(
        cells,
    ).push('\n'));
}

/// A line of the table of percentiles has a left aligned column of 24 characters, and then one of 6
/// characters for each cell.
pub proof fn percentile_lines_have_a_column_for_each_cell(name: Seq<char>, cells: Seq<Seq<char>>)
    ensures
        percentile_line(name, cells) == line_of(
            seq![left_aligned(name, 24)] + cells.map_values(
                |cell: Seq<char>| right_aligned(cell, 6),
            ),
        ).push('\n'),
{
    lemma_literals();
    lemma_percentile_cells(name, cells);
    let columns = seq![left_aligned(name, 24)] + cells.map_values(
        |cell: Seq<char>| right_aligned(cell, 6),
    );
    assert(percentile_line(name, cells) =~= line_of(columns).push('\n'));
}

proof fn lemma_percentile_cells(name: Seq<char>, cells: Seq<Seq<char>>)
    ensures
        seq![' '] + left_aligned(name, 24) + percentile_cells(cells) == line_of(
            seq![left_aligned(name, 24)] + cells.map_values(
                |cell: Seq<char>| right_aligned(cell, 6),
            ),
        ),
    decreases cells.len(),
{
    lemma_literals();
    let wide = |cell: Seq<char>| right_aligned(cell, 6);
    let columns = seq![left_aligned(name, 24)] + cells.map_values(wide);
    if cells.len() == 0 {
        assert(columns =~= seq![left_aligned(name, 24)]);
        assert(seq![' '] + left_aligned(name, 24) + percentile_cells(cells) =~= line_of(columns));
    } else {
        lemma_percentile_cells(name, cells.drop_last());
        assert(columns.drop_last() =~= seq![left_aligned(name, 24)] + cells.drop_last().map_values(
            wide,
        ));
        assert(columns.last() == right_aligned(cells.last(), 6));
        assert(seq![' '] + left_aligned(name, 24) + percentile_cells(cells) =~= line_of(columns));
    }
}

/// A line of the table of status codes has a left aligned column of 24 characters and one of 51.
pub proof fn code_lines_have_two_columns(name: Seq<char>, codes: Seq<char>)
    ensures
        code_line(name, codes) == line_of(seq![left_aligned(name, 24), right_aligned(codes, 51)]),
{
    lemma_literals();
    let cells = seq![left_aligned(name, 24), right_aligned(codes, 51)];
    assert(line_of(cells.drop_last()) == seq![' '] + cells[0]);
    assert(code_line(name, codes) =~= line_of(cells));
}

/// Dashes between a space and the end of the line, and a cross under each border of the columns.
pub open spec fn is_rule(text: Seq<char>, crosses: Set<int>) -> bool {
    &&& text.len() == 80
    &&& text[0] == ' '
    &&& text[79] == '\n'
    &&& forall|i: int|
        0 < i < 79 ==> #[trigger] text[i] == if crosses.contains(i) {
            '+'
        } else {
            '-'
        }
}

/// A heading is set off by a line of dashes.
pub proof fn rule_is_drawn()
    ensures
        is_rule(rule(), Set::empty()),
{
    reveal_strlit(" ------------------------------------------------------------------------------\n");
}

/// The aggregate of a table of counts is set off by a line whose crosses stand below the borders of
/// its columns.
pub proof fn count_rule_is_drawn()
    ensures
        is_rule(count_rule(), set![26int, 42int, 59int, 70int]),
{
    reveal_strlit(" -------------------------+---------------+----------------+----------+--------\n");
}

/// The aggregate of a table of times is set off by a line whose crosses stand below the borders of
/// its columns.
pub proof fn time_rule_is_drawn()
    ensures
        is_rule(time_rule(), set![26int, 40int, 53int, 67int]),
{
    reveal_strlit(" -------------------------+-------------+------------+-------------+-----------\n");
}

/// The aggregate of the table of percentiles is set off by a line whose crosses stand below the
/// borders of its columns.
pub proof fn percentile_rule_is_drawn()
    ensures
        is_rule(percentile_rule(), set![26int, 35int, 44int, 53int, 62int, 71int]),
{
    reveal_strlit(" -------------------------+--------+--------+--------+--------+--------+-------\n");
}

/// The aggregate of the table of status codes is set off by a line whose cross stands below the
/// border of its columns.
pub proof fn code_rule_is_drawn()
    ensures
        is_rule(code_rule(), set![26int]),
{
    reveal_strlit(" -------------------------+----------------------------------------------------\n");
}

} // verus!
