//! How the tables are written, part by part.
//!
//! Whoever displays the metrics performs one action after the other, and tells whether it failed.

use crate::display::{report, report_joins_its_parts, report_parts, ReportFigures};
use crate::layout::joined;
use crate::metrics::MetricsModel;
use vstd::prelude::*;

verus! {

/// What to do next.
#[derive(Debug, Clone, Copy, PartialEq, Eq, Structural)]
pub enum WriteAction {
    /// Write the part with this index.
    Write(usize),
    /// Stop, and report whether everything was written.
    Finish(bool),
}

/// What to do after `written` of `count` parts were written, and the last attempt failed or not.
pub open spec fn next_write(count: nat, written: nat, failed: bool) -> WriteAction {
    if failed {
        WriteAction::Finish(false)
    } else if written < count {
        WriteAction::Write(written as usize)
    } else {
        WriteAction::Finish(true)
    }
}

/// Says what to do after some parts were written, and the last attempt failed or not.
pub fn write_action(parts: &Vec<String>, written: usize, failed: bool) -> (r: WriteAction)
    ensures
        r == next_write(parts@.len(), written as nat, failed),
{
    if failed {
        WriteAction::Finish(false)
    } else if written < parts.len() {
        WriteAction::Write(written)
    } else {
        WriteAction::Finish(true)
    }
}

/// What writing comes to.
pub struct Written {
    /// The parts that were written without failure, one after the other.
    pub text: Seq<char>,
    /// How many parts were attempted.
    pub attempts: nat,
    /// What is reported.
    pub success: bool,
}

/// Where the actions lead after `done` parts made up `text`: `results` says for each part whether
/// it can be written.
pub open spec fn writing(
    parts: Seq<Seq<char>>,
    results: Seq<bool>,
    done: nat,
    text: Seq<char>,
) -> Written
    decreases parts.len() - done,
{
    let action = next_write(parts.len(), done, false);
    if done >= parts.len() {
        Written { text, attempts: done, success: action->Finish_0 }
    } else if results[action->Write_0 as int] {
        writing(parts, results, done + 1, text + parts[action->Write_0 as int])
    } else {
        Written {
            text,
            attempts: done + 1,
            success: next_write(parts.len(), done, true)->Finish_0,
        }
    }
}

proof fn lemma_writing(parts: Seq<Seq<char>>, results: Seq<bool>, done: nat)
    requires
        results.len() >= parts.len(),
        parts.len() <= usize::MAX,
        done <= parts.len(),
        forall|i: int| 0 <= i < done ==> #[trigger] results[i],
    ensures
        ({
            let outcome = writing(parts, results, done, joined(parts.take(done as int)));
            let attempts = outcome.attempts as int;
            &&& attempts <= parts.len()
            &&& outcome.success <==> forall|i: int| 0 <= i < parts.len() ==> #[trigger] results[i]
            &&& outcome.success ==> attempts == parts.len() && outcome.text == joined(parts)
            &&& !outcome.success ==> 0 < attempts && !results[attempts - 1] && outcome.text
                == joined(parts.take(attempts - 1))
            &&& forall|i: int| 0 <= i < attempts - 1 ==> #[trigger] results[i]
        }),
    decreases parts.len() - done,
{
    if done == parts.len() {
        assert(parts.take(done as int) =~= parts);
    } else if results[done as int] {
        assert(parts.take(done as int + 1).drop_last() =~= parts.take(done as int));
        lemma_writing(parts, results, done + 1);
    }
}

/// The parts are written in their order, up to the first one that fails, which is reported; if none
/// fails, all of them are written, and success is reported.
pub proof fn first_failure_ends_writing(parts: Seq<Seq<char>>, results: Seq<bool>)
    requires
        results.len() >= parts.len(),
        parts.len() <= usize::MAX,
    ensures
        ({
            let outcome = writing(parts, results, 0, Seq::empty());
            let attempts = outcome.attempts as int;
            &&& attempts <= parts.len()
            &&& outcome.success <==> forall|i: int| 0 <= i < parts.len() ==> #[trigger] results[i]
            &&& outcome.success ==> attempts == parts.len() && outcome.text == joined(parts)
            &&& !outcome.success ==> 0 < attempts && !results[attempts - 1] && outcome.text
                == joined(parts.take(attempts - 1))
            &&& forall|i: int| 0 <= i < attempts - 1 ==> #[trigger] results[i]
        }),
{
    assert(parts.take(0) =~= Seq::<Seq<char>>::empty());
    lemma_writing(parts, results, 0);
}

/// Of the metrics all tables are written in their order if no attempt fails; else those before the
/// first that fails, and none after it.
pub proof fn tables_are_written_in_order(
    metrics: MetricsModel,
    figures: ReportFigures,
    status_codes: Seq<char>,
    results: Seq<bool>,
)
    requires
        results.len() >= 7,
    ensures
        ({
            let parts = report_parts(metrics, figures, status_codes);
            let outcome = writing(parts, results, 0, Seq::empty());
            let attempts = outcome.attempts as int;
            &&& outcome.success <==> forall|i: int| 0 <= i < 7 ==> #[trigger] results[i]
            &&& outcome.success ==> outcome.text == report(metrics, figures, status_codes)
            &&& !outcome.success ==> 0 < attempts <= 7 && !results[attempts - 1] && outcome.text
                == joined(parts.take(attempts - 1))
            &&& forall|i: int| 0 <= i < attempts - 1 ==> #[trigger] results[i]
        }),
{
    first_failure_ends_writing(report_parts(metrics, figures, status_codes), results);
    report_joins_its_parts(metrics, figures, status_codes);
}

} // verus!
