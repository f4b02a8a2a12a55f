//! Quantities of the tables that are fractions.
//!
//! The library says which fraction is due; whoever prints the tables works it out in floating
//! point and hands it back as text.

use crate::text::text_equals;
use vstd::prelude::*;

verus! {

/// A quotient of two counts.
#[derive(Debug, Clone, Copy, PartialEq, Eq, Structural)]
pub struct Ratio {
    pub numerator: usize,
    pub denominator: usize,
}

/// Zero, as a quotient.
pub open spec fn zero_ratio() -> Ratio {
    Ratio { numerator: 0, denominator: 1 }
}

/// `count` for each unit of `per`; zero where there is no unit.
pub open spec fn quotient(count: int, per: int) -> Ratio {
    if per == 0 {
        zero_ratio()
    } else {
        Ratio { numerator: count as usize, denominator: per as usize }
    }
}

/// The part of `total` that `fail` is; zero where nothing failed.
pub open spec fn fail_ratio(total: int, fail: int) -> Ratio {
    if fail > 0 {
        Ratio { numerator: fail as usize, denominator: total as usize }
    } else {
        zero_ratio()
    }
}

/// The average of `counter` values that add up to `total`; zero where there is no value.
pub fn average(total: usize, counter: usize) -> (r: Ratio)
    ensures
        r == quotient(total as int, counter as int),
        r.denominator > 0,
{
    if counter == 0 {
        Ratio { numerator: 0, denominator: 1 }
    } else {
        Ratio { numerator: total, denominator: counter }
    }
}

/// Calculates requests and fails per second.
pub fn per_second_calculations(duration: usize, total: usize, fail: usize) -> (r: (Ratio, Ratio))
    ensures
        r.0 == quotient(total as int, duration as int),
        r.1 == quotient(fail as int, duration as int),
        r.0.denominator > 0,
        r.1.denominator > 0,
{
    if duration == 0 {
        (Ratio { numerator: 0, denominator: 1 }, Ratio { numerator: 0, denominator: 1 })
    } else {
        (
            Ratio { numerator: total, denominator: duration },
            Ratio { numerator: fail, denominator: duration },
        )
    }
}

/// The part of `total` that `fail` is.
pub fn fail_share(total: usize, fail: usize) -> (r: Ratio)
    requires
        fail <= total,
    ensures
        r == fail_ratio(total as int, fail as int),
        r.denominator > 0,
{
    if fail > 0 {
        Ratio { numerator: fail, denominator: total }
    } else {
        Ratio { numerator: 0, denominator: 1 }
    }
}

/// A number that is not negative, as it is printed.
#[derive(Debug, Clone, PartialEq, Eq)]
pub struct Figure {
    /// The number without its fraction.
    pub whole: usize,
    /// The number rounded to an integer.
    pub rounded: String,
    /// The number rounded to one decimal place.
    pub tenths: String,
    /// The number rounded to two decimal places.
    pub hundredths: String,
}

/// How many decimal places of a number are shown: two below a thousand, else none.
pub open spec fn precision(value: Figure) -> usize {
    if value.whole < 1000 {
        2
    } else {
        0
    }
}

/// Determines how many decimal places of a number are shown.
pub fn determine_precision(value: &Figure) -> (r: usize)
    ensures
        r == precision(*value),
{
    if value.whole < 1000 {
        2
    } else {
        0
    }
}

/// A number as it is shown.
pub open spec fn shown(value: Figure) -> Seq<char> {
    if precision(value) == 2 {
        value.hundredths@
    } else {
        value.rounded@
    }
}

/// A percentage as it is shown: with one decimal place, but for 100.0 and 0.0, which are
/// compressed to 100 and 0 to save width.
pub open spec fn shown_percentage(value: Figure) -> Seq<char> {
    if value.tenths@ == "100.0"@ {
        "100"@
    } else if value.tenths@ == "0.0"@ {
        "0"@
    } else {
        value.tenths@
    }
}

/// Writes a number as it is shown.
pub(crate) fn figure_text(value: &Figure) -> (r: &str)
    ensures
        r@ == shown(*value),
{
    if determine_precision(value) == 2 {
        value.hundredths.as_str()
    } else {
        value.rounded.as_str()
    }
}

/// Writes a percentage as it is shown.
pub(crate) fn percentage_text(value: &Figure) -> (r: &str)
    ensures
        r@ == shown_percentage(*value),
{
    // Compress 100.0 and 0.0 to 100 and 0 respectively to save width.
    if text_equals(value.tenths.as_str(), "100.0") {
        "100"
    } else if text_equals(value.tenths.as_str(), "0.0") {
        "0"
    } else {
        value.tenths.as_str()
    }
}

/// A quotient keeps both of its numbers, and is zero where it would be divided by zero; so does a
/// share of failures, which is zero where nothing failed.
pub proof fn fractions_keep_their_numbers(count: int, per: int)
    requires
        0 <= count <= usize::MAX,
        0 <= per <= usize::MAX,
    ensures
        per > 0 ==> quotient(count, per).numerator == count && quotient(count, per).denominator
            == per,
        per == 0 ==> quotient(count, per).numerator == 0 && quotient(count, per).denominator == 1,
        count > 0 ==> fail_ratio(per, count).numerator == count && fail_ratio(
            per,
            count,
        ).denominator == per,
        count == 0 ==> fail_ratio(per, count).numerator == 0 && fail_ratio(per, count).denominator
            == 1,
{
}

/// A number below a thousand is shown with two decimal places, and any other with none.
pub proof fn small_numbers_show_decimals(value: Figure)
    ensures
        value.whole < 1000 ==> precision(value) == 2 && shown(value) == value.hundredths@,
        value.whole >= 1000 ==> precision(value) == 0 && shown(value) == value.rounded@,
{
}

/// A percentage is shown with one decimal place, and only where that reads 100.0 or 0.0 without it.
pub proof fn only_whole_and_none_lose_a_decimal(value: Figure)
    ensures
        value.tenths@ == seq!['1', '0', '0', '.', '0'] ==> shown_percentage(value) == seq![
            '1',
            '0',
            '0',
        ],
        value.tenths@ == seq!['0', '.', '0'] ==> shown_percentage(value) == seq!['0'],
        value.tenths@ != seq!['1', '0', '0', '.', '0'] && value.tenths@ != seq!['0', '.', '0']
            ==> shown_percentage(value) == value.tenths@,
{
    reveal_strlit("100.0");
    reveal_strlit("100");
    reveal_strlit("0.0");
    reveal_strlit("0");
    assert("100.0"@ =~= seq!['1', '0', '0', '.', '0']);
    assert("100"@ =~= seq!['1', '0', '0']);
    assert("0.0"@ =~= seq!['0', '.', '0']);
    assert("0"@ =~= seq!['0']);
    assert("100.0"@.len() == 5);
    assert("0.0"@.len() == 3);
}

} // verus!
