//! All metrics of a load test.

use crate::counts::{
    tallies_fit, tallies_of, tallies_valid, tally_list, tally_models, Tally, TallyModel,
};
use crate::error::{ErrorModel, GooseErrorMetric};
use crate::goose::{GooseConfiguration, GooseTask, GooseTaskSet};
use crate::layout::joined;
use crate::name_map::NameMap;
use crate::order::{name_order, texts};
use crate::request::{
    GooseRequestAggregateMetric, GooseRequestMetric, RequestAggregateModel, RequestModel,
};
use crate::sorted_map::SortedMap;
use crate::task::{GooseTaskAggregateMetric, GooseTaskMetric, TaskAggregateModel, TaskModel};
use crate::timing::{time_models, TimeModel, TimeSummary};
use vstd::prelude::*;

verus! {

broadcast use {vstd::std_specs::btree::group_btree_axioms, vstd::laws_cmp::group_laws_cmp};

/// The metrics that each user thread pushes to the parent for aggregation.
#[derive(Debug, Clone)]
pub enum GooseMetric {
    Request(GooseRequestMetric),
    Task(GooseTaskMetric),
    Error(GooseErrorMetric),
}

/// What a `GooseMetric` says.
pub enum MetricModel {
    Request(RequestModel),
    Task(TaskModel),
    Error(ErrorModel),
}

impl View for GooseMetric {
    type V = MetricModel;

    open spec fn view(&self) -> MetricModel {
        match self {
            GooseMetric::Request(request) => MetricModel::Request(request@),
            GooseMetric::Task(task) => MetricModel::Task(task@),
            GooseMetric::Error(error) => MetricModel::Error(error@),
        }
    }
}

/// Metrics about the requests made during a load test.
pub type GooseRequestMetrics = NameMap<GooseRequestAggregateMetric>;

/// Metrics about the tasks run during a load test.
pub type GooseTaskMetrics = Vec<Vec<GooseTaskAggregateMetric>>;

/// All errors tracked during a load test.
pub type GooseErrorMetrics = SortedMap<GooseErrorMetric>;

/// Metrics collected during a load test.
#[derive(Debug, Clone)]
pub struct GooseMetrics {
    /// A hash of the load test, useful to verify if different metrics are from
    /// the same load test.
    pub hash: u64,
    /// When the load test started, in seconds since the beginning of 1970.
    pub started: Option<i64>,
    /// Total number of seconds the load test ran.
    pub duration: usize,
    /// Total number of users simulated during this load test.
    pub users: usize,
    /// Request metrics.
    pub requests: GooseRequestMetrics,
    /// Task metrics.
    pub tasks: GooseTaskMetrics,
    /// Error-related metrics.
    pub errors: GooseErrorMetrics,
    /// Flag indicating whether or not these are the final metrics.
    pub final_metrics: bool,
    /// Flag indicating whether or not to display status codes.
    pub display_status_codes: bool,
    /// Flag indicating whether or not to display metrics, set to false on workers.
    pub display_metrics: bool,
}

/// What `GooseMetrics` say.
#[verifier::ext_equal]
pub struct MetricsModel {
    pub hash: u64,
    pub started: Option<i64>,
    pub duration: usize,
    pub users: usize,
    pub requests: Map<Seq<char>, RequestAggregateModel>,
    pub tasks: Seq<Seq<TaskAggregateModel>>,
    pub errors: Map<Seq<char>, ErrorModel>,
    pub final_metrics: bool,
    pub display_status_codes: bool,
    pub display_metrics: bool,
}

/// What the aggregates of a task set say.
pub open spec fn task_models(tasks: Seq<GooseTaskAggregateMetric>) -> Seq<TaskAggregateModel> {
    tasks.map_values(|t: GooseTaskAggregateMetric| t@)
}

/// What the aggregates of all task sets say.
pub open spec fn task_set_models(sets: Seq<Vec<GooseTaskAggregateMetric>>) -> Seq<
    Seq<TaskAggregateModel>,
> {
    sets.map_values(|set: Vec<GooseTaskAggregateMetric>| task_models(set@))
}

impl View for GooseMetrics {
    type V = MetricsModel;

    open spec fn view(&self) -> MetricsModel {
        MetricsModel {
            hash: self.hash,
            started: self.started,
            duration: self.duration,
            users: self.users,
            requests: self.requests@.map_values(|r: GooseRequestAggregateMetric| r@),
            tasks: task_set_models(self.tasks@),
            errors: self.errors@.map_values(|e: GooseErrorMetric| e@),
            final_metrics: self.final_metrics,
            display_status_codes: self.display_status_codes,
            display_metrics: self.display_metrics,
        }
    }
}

impl MetricsModel {
    /// No metrics, and nothing to display.
    pub open spec fn empty() -> MetricsModel {
        MetricsModel {
            hash: 0,
            started: None,
            duration: 0,
            users: 0,
            requests: Map::empty(),
            tasks: Seq::empty(),
            errors: Map::empty(),
            final_metrics: false,
            display_status_codes: false,
            display_metrics: false,
        }
    }

    /// The names of the requests, in the order in which the tables list them.
    pub open spec fn request_names(self) -> Seq<Seq<char>> {
        name_order(self.requests.dom())
    }

    /// The requests, in the order in which the tables list them.
    pub open spec fn request_rows(self) -> Seq<RequestAggregateModel> {
        self.request_names().map_values(|name: Seq<char>| self.requests[name])
    }

    /// The tasks, in the order in which the tables list them.
    pub open spec fn task_rows(self) -> Seq<TaskAggregateModel> {
        joined(self.tasks)
    }
}

/// How often each request was made and failed.
pub open spec fn request_tallies(rows: Seq<RequestAggregateModel>) -> Seq<TallyModel> {
    rows.map_values(|r: RequestAggregateModel| TallyModel::of(r.success_count, r.fail_count))
}

/// How long each request took.
pub open spec fn request_times(rows: Seq<RequestAggregateModel>) -> Seq<TimeModel> {
    rows.map_values(
        |r: RequestAggregateModel|
            TimeModel {
                times: r.response_times,
                total: r.total_response_time,
                counter: r.response_time_counter,
                min: r.min_response_time,
                max: r.max_response_time,
            },
    )
}

/// The status codes of each request.
pub open spec fn request_codes(rows: Seq<RequestAggregateModel>) -> Seq<Map<u16, usize>> {
    rows.map_values(|r: RequestAggregateModel| r.status_code_counts)
}

/// How often each task was run and failed.
pub open spec fn task_tallies(rows: Seq<TaskAggregateModel>) -> Seq<TallyModel> {
    rows.map_values(|t: TaskAggregateModel| TallyModel::of(t.success_count, t.fail_count))
}

/// How long each task took.
pub open spec fn task_times(rows: Seq<TaskAggregateModel>) -> Seq<TimeModel> {
    rows.map_values(
        |t: TaskAggregateModel|
            TimeModel {
                times: t.times,
                total: t.total_time,
                counter: t.counter,
                min: t.min_time,
                max: t.max_time,
            },
    )
}

impl Default for GooseMetrics {
    fn default() -> (r: Self)
        ensures
            r@ == MetricsModel::empty(),
    {
        let r = GooseMetrics {
            hash: 0,
            started: None,
            duration: 0,
            users: 0,
            requests: NameMap::new(),
            tasks: Vec::new(),
            errors: SortedMap::new(),
            final_metrics: false,
            display_status_codes: false,
            display_metrics: false,
        };
        assert(r@ =~= MetricsModel::empty());
        r
    }
}

/// The aggregates of the tasks of a set, none of which was run yet.
pub open spec fn fresh_task_set(task_set: GooseTaskSet) -> Seq<TaskAggregateModel> {
    task_set.tasks@.map_values(
        |task: GooseTask|
            TaskAggregateModel::empty(
                task_set.task_sets_index,
                task_set.name@,
                task.tasks_index,
                task.name@,
            ),
    )
}

/// The aggregates of all tasks, none of which was run yet.
pub open spec fn fresh_tasks(task_sets: Seq<GooseTaskSet>) -> Seq<Seq<TaskAggregateModel>> {
    task_sets.map_values(|task_set: GooseTaskSet| fresh_task_set(task_set))
}

fn new_task_set(task_set: &GooseTaskSet) -> (r: Vec<GooseTaskAggregateMetric>)
    ensures
        task_models(r@) == fresh_task_set(*task_set),
{
    let mut task_vector: Vec<GooseTaskAggregateMetric> = Vec::new();
    let mut i: usize = 0;
    while i < task_set.tasks.len()
        invariant
            i <= task_set.tasks@.len(),
            task_vector@.len() == i,
            forall|j: int|
                0 <= j < i ==> (#[trigger] task_vector@[j])@ == fresh_task_set(*task_set)[j],
        decreases task_set.tasks@.len() - i,
    {
        let task = &task_set.tasks[i];
        task_vector.push(
            GooseTaskAggregateMetric::new(
                task_set.task_sets_index,
                task_set.name.as_str(),
                task.tasks_index,
                task.name.as_str(),
            ),
        );
        i += 1;
    }
    assert(task_models(task_vector@) =~= fresh_task_set(*task_set));
    task_vector
}

impl GooseMetrics {
    /// Initialize the task metrics vector: one aggregate for each task, or none where the
    /// configuration disables them.
    pub fn initialize_task_metrics(
        &mut self,
        task_sets: &[GooseTaskSet],
        config: &GooseConfiguration,
    )
        ensures
            final(self)@ == (MetricsModel {
                tasks: if config.no_metrics || config.no_task_metrics {
                    Seq::empty()
                } else {
                    fresh_tasks(task_sets@)
                },
                ..old(self)@
            }),
    {
        let mut tasks: GooseTaskMetrics = Vec::new();
        if !config.no_metrics && !config.no_task_metrics {
            let mut i: usize = 0;
            while i < task_sets.len()
                invariant
                    i <= task_sets@.len(),
                    tasks@.len() == i,
                    forall|j: int|
                        0 <= j < i ==> task_models((#[trigger] tasks@[j])@) == fresh_task_set(
                            task_sets@[j],
                        ),
                decreases task_sets@.len() - i,
            {
                tasks.push(new_task_set(&task_sets[i]));
                i += 1;
            }
            assert(task_set_models(tasks@) =~= fresh_tasks(task_sets@));
        }
        assert(tasks@.len() == 0 ==> task_set_models(tasks@) =~= Seq::empty());
        self.tasks = tasks;
    }

    /// When the load test started, as a unix timestamp; zero where it did not start.
    pub fn started_timestamp(&self) -> (r: i64)
        ensures
            r == match self@.started {
                Some(timestamp) => timestamp,
                None => 0,
            },
    {
        match self.started {
            Some(timestamp) => timestamp,
            None => 0,
        }
    }
}

/// What requests say.
pub open spec fn request_models(rows: Seq<&GooseRequestAggregateMetric>) -> Seq<
    RequestAggregateModel,
> {
    rows.map_values(|r: &GooseRequestAggregateMetric| r@)
}

/// What tasks say.
pub open spec fn listed_task_models(rows: Seq<&GooseTaskAggregateMetric>) -> Seq<
    TaskAggregateModel,
> {
    rows.map_values(|t: &GooseTaskAggregateMetric| t@)
}

impl GooseMetrics {
    /// The names of the requests and the requests, in the order in which the tables list them.
    pub(crate) fn listed_requests(&self) -> (r: (Vec<String>, Vec<&GooseRequestAggregateMetric>))
        ensures
            r.1@.len() == r.0@.len(),
            texts(r.0@) == self@.request_names(),
            request_models(r.1@) == self@.request_rows(),
            r.0@.len() == 0 <==> self@.requests == Map::<
                Seq<char>,
                RequestAggregateModel,
            >::empty(),
    {
        let names = self.requests.sorted_names();
        assert(self@.requests.dom() =~= self.requests@.dom());
        let mut rows: Vec<&GooseRequestAggregateMetric> = Vec::new();
        let mut i: usize = 0;
        while i < names.len()
            invariant
                i <= names@.len(),
                texts(names@).to_set() == self.requests@.dom(),
                rows@.len() == i,
                forall|j: int|
                    0 <= j < i ==> (#[trigger] rows@[j])@ == self@.requests[names@[j]@],
            decreases names@.len() - i,
        {
            proof {
                let listed = texts(names@);
                assert(listed[i as int] == names@[i as int]@);
                assert(listed.contains(listed[i as int]));
                assert(listed.to_set().contains(listed[i as int]));
            }
            match self.requests.get(names[i].as_str()) {
                Some(request) => rows.push(request),
                None => {
                    assert(false);
                },
            }
            i += 1;
        }
        proof {
            assert(request_models(rows@) =~= self@.request_rows());
            let listed = texts(names@);
            if names@.len() > 0 {
                assert(listed.contains(listed[0]));
                assert(listed.to_set().contains(listed[0]));
                assert(self@.requests.contains_key(listed[0]));
            } else {
                assert forall|n: Seq<char>| !self@.requests.contains_key(n) by {
                    assert(!listed.to_set().contains(n));
                }
                assert(self@.requests =~= Map::<Seq<char>, RequestAggregateModel>::empty());
            }
        }
        (names, rows)
    }

    /// The tasks, in the order in which the tables list them.
    pub(crate) fn listed_tasks(&self) -> (r: Vec<&GooseTaskAggregateMetric>)
        ensures
            listed_task_models(r@) == self@.task_rows(),
    {
        let ghost sets = self@.tasks;
        let mut rows: Vec<&GooseTaskAggregateMetric> = Vec::new();
        let mut i: usize = 0;
        assert(sets.take(0) =~= Seq::empty());
        assert(listed_task_models(rows@) =~= joined(sets.take(0)));
        while i < self.tasks.len()
            invariant
                i <= self.tasks@.len(),
                sets == task_set_models(self.tasks@),
                listed_task_models(rows@) == joined(sets.take(i as int)),
            decreases self.tasks@.len() - i,
        {
            let set = &self.tasks[i];
            let ghost before = listed_task_models(rows@);
            let mut j: usize = 0;
            assert(before + task_models(set@).take(0) =~= before);
            while j < set.len()
                invariant
                    j <= set@.len(),
                    listed_task_models(rows@) == before + task_models(set@).take(j as int),
                decreases set@.len() - j,
            {
                let ghost so_far = listed_task_models(rows@);
                rows.push(&set[j]);
                assert(listed_task_models(rows@) =~= so_far.push(set@[j as int]@));
                assert(task_models(set@).take(j + 1) =~= task_models(set@).take(j as int).push(
                    set@[j as int]@,
                ));
                assert(listed_task_models(rows@) =~= before + task_models(set@).take(j + 1));
                j += 1;
            }
            proof {
                let longer = sets.take(i + 1);
                assert(longer.drop_last() =~= sets.take(i as int));
                assert(longer.last() == task_models(set@));
                assert(task_models(set@).take(set@.len() as int) =~= task_models(set@));
            }
            i += 1;
        }
        assert(sets.take(self.tasks@.len() as int) =~= sets);
        rows
    }
}

/// How often each request was made and failed. There is no answer where the sum is too large.
pub(crate) fn tallies_of_requests(rows: &Vec<&GooseRequestAggregateMetric>) -> (r: Option<
    Vec<Tally>,
>)
    ensures
        r is Some <==> tallies_fit(request_tallies(request_models(rows@))),
        r matches Some(tallies) ==> tallies@.len() == rows@.len() && tally_models(tallies@)
            == request_tallies(request_models(rows@)),
        tallies_valid(request_tallies(request_models(rows@))),
{
    let mut counts: Vec<(usize, usize)> = Vec::new();
    let mut i: usize = 0;
    while i < rows.len()
        invariant
            i <= rows@.len(),
            counts@.len() == i,
            forall|j: int|
                0 <= j < i ==> (#[trigger] counts@[j]).0 == rows@[j].success_count && counts@[j].1
                    == rows@[j].fail_count,
        decreases rows@.len() - i,
    {
        counts.push((rows[i].success_count, rows[i].fail_count));
        i += 1;
    }
    assert(tallies_of(counts@) =~= request_tallies(request_models(rows@)));
    tally_list(&counts)
}

/// How often each task was run and failed. There is no answer where the sum is too large.
pub(crate) fn tallies_of_tasks(rows: &Vec<&GooseTaskAggregateMetric>) -> (r: Option<Vec<Tally>>)
    ensures
        r is Some <==> tallies_fit(task_tallies(listed_task_models(rows@))),
        r matches Some(tallies) ==> tallies@.len() == rows@.len() && tally_models(tallies@)
            == task_tallies(listed_task_models(rows@)),
        tallies_valid(task_tallies(listed_task_models(rows@))),
{
    let mut counts: Vec<(usize, usize)> = Vec::new();
    let mut i: usize = 0;
    while i < rows.len()
        invariant
            i <= rows@.len(),
            counts@.len() == i,
            forall|j: int|
                0 <= j < i ==> (#[trigger] counts@[j]).0 == rows@[j].success_count && counts@[j].1
                    == rows@[j].fail_count,
        decreases rows@.len() - i,
    {
        counts.push((rows[i].success_count, rows[i].fail_count));
        i += 1;
    }
    assert(tallies_of(counts@) =~= task_tallies(listed_task_models(rows@)));
    tally_list(&counts)
}

/// How long each request took.
pub(crate) fn times_of_requests(rows: &Vec<&GooseRequestAggregateMetric>) -> (r: Vec<TimeSummary>)
    ensures
        r@.len() == rows@.len(),
        time_models(r@) == request_times(request_models(rows@)),
{
    let mut out: Vec<TimeSummary> = Vec::new();
    let mut i: usize = 0;
    while i < rows.len()
        invariant
            i <= rows@.len(),
            out@.len() == i,
            forall|j: int|
                0 <= j < i ==> (#[trigger] out@[j])@ == request_times(request_models(rows@))[j],
        decreases rows@.len() - i,
    {
        out.push(
            TimeSummary {
                times: rows[i].response_times.clone(),
                total: rows[i].total_response_time,
                counter: rows[i].response_time_counter,
                min: rows[i].min_response_time,
                max: rows[i].max_response_time,
            },
        );
        i += 1;
    }
    assert(time_models(out@) =~= request_times(request_models(rows@)));
    out
}

/// How long each task took.
pub(crate) fn times_of_tasks(rows: &Vec<&GooseTaskAggregateMetric>) -> (r: Vec<TimeSummary>)
    ensures
        r@.len() == rows@.len(),
        time_models(r@) == task_times(listed_task_models(rows@)),
{
    let mut out: Vec<TimeSummary> = Vec::new();
    let mut i: usize = 0;
    while i < rows.len()
        invariant
            i <= rows@.len(),
            out@.len() == i,
            forall|j: int|
                0 <= j < i ==> (#[trigger] out@[j])@ == task_times(listed_task_models(rows@))[j],
        decreases rows@.len() - i,
    {
        out.push(
            TimeSummary {
                times: rows[i].times.clone(),
                total: rows[i].total_time,
                counter: rows[i].counter,
                min: rows[i].min_time,
                max: rows[i].max_time,
            },
        );
        i += 1;
    }
    assert(time_models(out@) =~= task_times(listed_task_models(rows@)));
    out
}

/// Before anything was run there is, for each task of each task set, an aggregate that counted
/// nothing and has the numbers and names of its task and its task set.
pub proof fn fresh_tasks_have_their_names(task_sets: Seq<GooseTaskSet>, s: int, t: int)
    requires
        0 <= s < task_sets.len(),
        0 <= t < task_sets[s].tasks@.len(),
    ensures
        fresh_tasks(task_sets).len() == task_sets.len(),
        fresh_tasks(task_sets)[s].len() == task_sets[s].tasks@.len(),
        ({
            let fresh = fresh_tasks(task_sets)[s][t];
            &&& fresh.taskset_index == task_sets[s].task_sets_index
            &&& fresh.taskset_name == task_sets[s].name@
            &&& fresh.task_index == task_sets[s].tasks@[t].tasks_index
            &&& fresh.task_name == task_sets[s].tasks@[t].name@
            &&& fresh.times.dom() == Set::<usize>::empty()
            &&& fresh.min_time == 0 && fresh.max_time == 0 && fresh.total_time == 0
            &&& fresh.counter == 0 && fresh.success_count == 0 && fresh.fail_count == 0
        }),
{
}

/// Metrics in which nothing was collected hold nothing, and display nothing.
pub proof fn empty_metrics_hold_nothing()
    ensures
        ({
            let empty = MetricsModel::empty();
            &&& empty.requests.dom() == Set::<Seq<char>>::empty()
            &&& empty.errors.dom() == Set::<Seq<char>>::empty()
            &&& empty.tasks.len() == 0
            &&& empty.hash == 0 && empty.duration == 0 && empty.users == 0
            &&& empty.started is None
            &&& !empty.final_metrics && !empty.display_status_codes && !empty.display_metrics
        }),
{
}

/// Metrics are read with all that they hold, entry by entry and task by task.
pub proof fn metrics_are_read_entry_by_entry(
    metrics: GooseMetrics,
    name: Seq<char>,
    s: int,
    t: int,
)
    ensures
        metrics@.requests.contains_key(name) <==> metrics.requests@.contains_key(name),
        metrics.requests@.contains_key(name) ==> metrics@.requests[name] == metrics.requests@[name]@,
        metrics@.errors.contains_key(name) <==> metrics.errors@.contains_key(name),
        metrics.errors@.contains_key(name) ==> metrics@.errors[name] == metrics.errors@[name]@,
        metrics@.tasks.len() == metrics.tasks@.len(),
        0 <= s < metrics.tasks@.len() ==> metrics@.tasks[s].len() == metrics.tasks@[s]@.len(),
        0 <= s < metrics.tasks@.len() && 0 <= t < metrics.tasks@[s]@.len() ==> metrics@.tasks[s][t]
            == metrics.tasks@[s]@[t]@,
        metrics@.hash == metrics.hash,
        metrics@.started == metrics.started,
        metrics@.duration == metrics.duration,
        metrics@.users == metrics.users,
        metrics@.final_metrics == metrics.final_metrics,
        metrics@.display_status_codes == metrics.display_status_codes,
        metrics@.display_metrics == metrics.display_metrics,
{
}

} // verus!
