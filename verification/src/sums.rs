//! Sums of numbers.

use vstd::prelude::*;

verus! {

/// The numbers added up.
pub open spec fn total_of(numbers: Seq<int>) -> int
    decreases numbers.len(),
{
    if numbers.len() == 0 {
        0
    } else {
        numbers[0] + total_of(numbers.drop_first())
    }
}

/// Numbers that are zero add up to zero, a single number is its own sum, and the sums of two lists
/// add up to the sum of both.
pub proof fn totals_add_up(a: Seq<int>, b: Seq<int>, n: int)
    ensures
        total_of(Seq::empty()) == 0,
        total_of(seq![n]) == n,
        total_of(a + b) == total_of(a) + total_of(b),
        total_of(a.push(n)) == total_of(a) + n,
    decreases a.len(),
{
    assert(seq![n].drop_first() =~= Seq::empty());
    assert(a.push(n) =~= a + seq![n]);
    lemma_total_split(a, b);
    lemma_total_split(a, seq![n]);
}

proof fn lemma_total_split(a: Seq<int>, b: Seq<int>)
    ensures
        total_of(a + b) == total_of(a) + total_of(b),
    decreases a.len(),
{
    if a.len() == 0 {
        assert(a + b =~= b);
    } else {
        assert((a + b).drop_first() =~= a.drop_first() + b);
        lemma_total_split(a.drop_first(), b);
    }
}

} // verus!
