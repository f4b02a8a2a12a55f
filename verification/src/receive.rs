//! How a load test receives the metrics of its users.
//!
//! The metrics that wait are received one after the other, for as long as there is time. Whoever
//! runs the load test performs one action after the other and tells what came of it.

use crate::attack::{accepts_metric, after_metric, GooseAttack};
use crate::goose::GooseConfiguration;
use crate::metrics::{GooseMetric, MetricModel, MetricsModel};
use crate::text::text_equals;
use vstd::prelude::*;

verus! {

/// The format in which requests are logged.
#[derive(Debug, Clone, Copy, PartialEq, Eq, Structural)]
pub enum LogFormat {
    /// JSON.
    Json,
    /// Comma-separated values.
    Csv,
    /// The debug output of the request.
    Raw,
}

/// The format that a text names, if it names one.
pub open spec fn named_format(text: Seq<char>) -> Option<LogFormat> {
    if text == "json"@ {
        Some(LogFormat::Json)
    } else if text == "csv"@ {
        Some(LogFormat::Csv)
    } else if text == "raw"@ {
        Some(LogFormat::Raw)
    } else {
        None
    }
}

impl GooseConfiguration {
    /// The format in which requests are logged, if the options name one.
    pub fn log_format(&self) -> (r: Option<LogFormat>)
        ensures
            r == named_format(self.requests_format@),
    {
        let format = self.requests_format.as_str();
        if text_equals(format, "json") {
            Some(LogFormat::Json)
        } else if text_equals(format, "csv") {
            Some(LogFormat::Csv)
        } else if text_equals(format, "raw") {
            Some(LogFormat::Raw)
        } else {
            None
        }
    }
}

/// Unless all metrics are flushed, no more than these milliseconds are spent receiving them.
pub const RECEIVE_TIMEOUT: u128 = 400;

/// What came of an action.
#[derive(Debug)]
pub enum ReceiveEvent {
    /// A metric was waiting.
    Metric(GooseMetric),
    /// No metric was waiting.
    Nothing,
    /// This many milliseconds passed since the first metric was asked for.
    Elapsed(u128),
}

/// What a `ReceiveEvent` says.
pub enum EventModel {
    Metric(MetricModel),
    Nothing,
    Elapsed(u128),
}

impl View for ReceiveEvent {
    type V = EventModel;

    open spec fn view(&self) -> EventModel {
        match self {
            ReceiveEvent::Metric(metric) => EventModel::Metric(metric@),
            ReceiveEvent::Nothing => EventModel::Nothing,
            ReceiveEvent::Elapsed(ms) => EventModel::Elapsed(*ms),
        }
    }
}

/// What to do next.
#[derive(Debug, Clone, Copy, PartialEq, Eq, Structural)]
pub enum ReceiveAction {
    /// Look whether a metric is waiting.
    Receive,
    /// Tell how much time passed.
    ReadTimer,
    /// Stop, and report whether any metric was received.
    Finish(bool),
}

/// How far receiving has come.
#[derive(Debug, Clone, Copy, PartialEq, Eq, Structural)]
pub struct Receiver {
    /// All metrics are received regardless of how long it takes.
    pub flush: bool,
    /// A metric was received.
    pub received: bool,
}

/// What to do after an event.
pub open spec fn next_action(receiver: Receiver, event: EventModel) -> ReceiveAction {
    match event {
        EventModel::Metric(_) => if receiver.flush {
            ReceiveAction::Receive
        } else {
            ReceiveAction::ReadTimer
        },
        EventModel::Nothing => ReceiveAction::Finish(receiver.received),
        EventModel::Elapsed(ms) => if !receiver.flush && ms >= RECEIVE_TIMEOUT {
            ReceiveAction::Finish(receiver.received)
        } else {
            ReceiveAction::Receive
        },
    }
}

/// How far receiving has come after an event.
pub open spec fn next_receiver(receiver: Receiver, event: EventModel) -> Receiver {
    Receiver { received: receiver.received || event is Metric, ..receiver }
}

impl Receiver {
    /// The state in which receiving starts. The first action is to look whether a metric waits.
    pub fn new(flush: bool) -> (r: Receiver)
        ensures
            r == (Receiver { flush, received: false }),
    {
        Receiver { flush, received: false }
    }
}

impl GooseAttack {
    /// Takes what came of an action, and says what to do next. A metric is aggregated.
    pub fn receive(&mut self, receiver: &mut Receiver, event: &ReceiveEvent) -> (r: ReceiveAction)
        requires
            event@ matches EventModel::Metric(metric) ==> {
                &&& accepts_metric(old(self).metrics@, old(self).configuration, metric)
                &&& metric is Request ==> named_format(
                    old(self).configuration.requests_format@,
                ) is Some
            },
        ensures
            final(self).configuration == old(self).configuration,
            final(self).metrics@ == match event@ {
                EventModel::Metric(metric) => after_metric(
                    old(self).metrics@,
                    old(self).configuration,
                    metric,
                ),
                _ => old(self).metrics@,
            },
            *final(receiver) == next_receiver(*old(receiver), event@),
            r == next_action(*old(receiver), event@),
    {
        match event {
            ReceiveEvent::Metric(metric) => {
                self.record_metric(metric);
                receiver.received = true;
                if receiver.flush {
                    ReceiveAction::Receive
                } else {
                    ReceiveAction::ReadTimer
                }
            },
            ReceiveEvent::Nothing => ReceiveAction::Finish(receiver.received),
            // Unless flushing all metrics, stop receiving after the timeout.
            ReceiveEvent::Elapsed(ms) => if !receiver.flush && *ms >= RECEIVE_TIMEOUT {
                ReceiveAction::Finish(receiver.received)
            } else {
                ReceiveAction::Receive
            },
        }
    }
}

/// The metrics after several metrics were received.
pub open spec fn after_metrics(
    metrics: MetricsModel,
    configuration: GooseConfiguration,
    waiting: Seq<MetricModel>,
) -> MetricsModel
    decreases waiting.len(),
{
    if waiting.len() == 0 {
        metrics
    } else {
        after_metrics(
            after_metric(metrics, configuration, waiting[0]),
            configuration,
            waiting.drop_first(),
        )
    }
}

/// What receiving comes to.
pub struct Outcome {
    /// How many of the waiting metrics were received.
    pub taken: nat,
    /// What is reported.
    pub received: bool,
    /// The metrics of the load test.
    pub metrics: MetricsModel,
}

/// Where the actions lead, from the one that looks whether a metric is waiting: `waiting` are the
/// metrics that wait, and `readings` is what the timer shows each time it is read.
pub open spec fn outcome(
    receiver: Receiver,
    metrics: MetricsModel,
    configuration: GooseConfiguration,
    waiting: Seq<MetricModel>,
    readings: Seq<u128>,
) -> Outcome
    decreases waiting.len(),
{
    let event = if waiting.len() == 0 {
        EventModel::Nothing
    } else {
        EventModel::Metric(waiting[0])
    };
    let next = next_receiver(receiver, event);
    if waiting.len() == 0 {
        Outcome { taken: 0, received: next_action(receiver, event)->Finish_0, metrics }
    } else {
        let after = after_metric(metrics, configuration, waiting[0]);
        let (action, later) = if next_action(receiver, event) is ReadTimer {
            (next_action(next, EventModel::Elapsed(readings[0])), readings.drop_first())
        } else {
            (next_action(receiver, event), readings)
        };
        match action {
            ReceiveAction::Finish(received) => Outcome { taken: 1, received, metrics: after },
            _ => {
                let rest = outcome(next, after, configuration, waiting.drop_first(), later);
                Outcome { taken: rest.taken + 1, ..rest }
            },
        }
    }
}

/// Where all metrics are flushed, all that wait are received, whatever the timer would show.
pub proof fn flush_receives_all(
    receiver: Receiver,
    metrics: MetricsModel,
    configuration: GooseConfiguration,
    waiting: Seq<MetricModel>,
    readings: Seq<u128>,
)
    requires
        receiver.flush,
    ensures
        outcome(receiver, metrics, configuration, waiting, readings) == (Outcome {
            taken: waiting.len(),
            received: receiver.received || waiting.len() > 0,
            metrics: after_metrics(metrics, configuration, waiting),
        }),
    decreases waiting.len(),
{
    if waiting.len() > 0 {
        let event = EventModel::Metric(waiting[0]);
        flush_receives_all(
            next_receiver(receiver, event),
            after_metric(metrics, configuration, waiting[0]),
            configuration,
            waiting.drop_first(),
            readings,
        );
    }
}

/// Where the metrics are not flushed, they are received in the order in which they wait, up to the
/// first one after which the timer shows the timeout; at least one is received if one waits; and
/// it is reported whether one was.
pub proof fn timeout_ends_receiving(
    receiver: Receiver,
    metrics: MetricsModel,
    configuration: GooseConfiguration,
    waiting: Seq<MetricModel>,
    readings: Seq<u128>,
)
    requires
        !receiver.flush,
        readings.len() >= waiting.len(),
    ensures
        ({
            let result = outcome(receiver, metrics, configuration, waiting, readings);
            let taken = result.taken as int;
            &&& taken <= waiting.len()
            &&& waiting.len() > 0 ==> taken > 0
            &&& forall|i: int| 0 <= i < taken - 1 ==> #[trigger] readings[i] < RECEIVE_TIMEOUT
            &&& taken < waiting.len() ==> readings[taken - 1] >= RECEIVE_TIMEOUT
            &&& result.received == (receiver.received || taken > 0)
            &&& result.metrics == after_metrics(metrics, configuration, waiting.take(taken))
        }),
    decreases waiting.len(),
{
    let result = outcome(receiver, metrics, configuration, waiting, readings);
    if waiting.len() == 0 {
        assert(waiting.take(0) =~= waiting);
    } else {
        let next = next_receiver(receiver, EventModel::Metric(waiting[0]));
        let after = after_metric(metrics, configuration, waiting[0]);
        let taken = result.taken as int;
        if readings[0] >= RECEIVE_TIMEOUT {
            assert(waiting.take(1).drop_first() =~= Seq::empty());
            assert(after_metrics(after, configuration, waiting.take(1).drop_first()) == after);
        } else {
            let later = readings.drop_first();
            timeout_ends_receiving(next, after, configuration, waiting.drop_first(), later);
            assert(waiting.take(taken).drop_first() =~= waiting.drop_first().take(taken - 1));
            assert forall|i: int| 0 <= i < taken - 1 implies #[trigger] readings[i]
                < RECEIVE_TIMEOUT by {
                if i > 0 {
                    assert(later[i - 1] == readings[i]);
                }
            }
            assert(taken < waiting.len() ==> later[taken - 2] >= RECEIVE_TIMEOUT);
        }
    }
}

} // verus!
