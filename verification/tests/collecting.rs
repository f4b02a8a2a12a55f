use goose_metrics::attack::GooseAttack;
use goose_metrics::error::GooseErrorMetric;
use goose_metrics::goose::{
    GooseConfiguration, GooseMethod, GooseTask, GooseTaskSet, StatusCode,
};
use goose_metrics::metrics::{GooseMetric, GooseMetrics};
use goose_metrics::receive::{LogFormat, ReceiveAction, ReceiveEvent, Receiver};
use goose_metrics::request::{GooseRequestAggregateMetric, GooseRequestMetric};
use goose_metrics::task::{GooseTaskAggregateMetric, GooseTaskMetric};
use std::cmp::Ordering;

fn configuration() -> GooseConfiguration {
    GooseConfiguration {
        no_metrics: false,
        no_task_metrics: false,
        no_error_summary: false,
        status_codes: true,
        requests_format: "json".to_string(),
    }
}

fn attack() -> GooseAttack {
    GooseAttack {
        metrics: GooseMetrics::default(),
        configuration: configuration(),
    }
}

fn task_sets() -> Vec<GooseTaskSet> {
    vec![
        GooseTaskSet {
            task_sets_index: 0,
            name: "Anonymous".to_string(),
            tasks: vec![
                GooseTask { tasks_index: 0, name: "front".to_string() },
                GooseTask { tasks_index: 1, name: "login".to_string() },
            ],
        },
        GooseTaskSet { task_sets_index: 1, name: "Empty".to_string(), tasks: vec![] },
    ]
}

fn request(name: &str, response_time: u128, success: bool) -> GooseRequestMetric {
    let mut raw_request =
        GooseRequestMetric::new(GooseMethod::Get, name, "http://localhost/", 7, 3);
    raw_request.set_response_time(response_time);
    raw_request.set_status_code(StatusCode::from_u16(if success { 200 } else { 503 }));
    raw_request.success = success;
    if !success {
        raw_request.error = "503 Service Unavailable".to_string();
    }
    raw_request
}

fn occurrences(attack: &GooseAttack, key: &str) -> Option<usize> {
    attack.metrics.errors.get(key).map(|error| error.occurrences)
}

#[test]
fn new_request_keeps_low_bits_of_elapsed_time() {
    let raw_request =
        GooseRequestMetric::new(GooseMethod::Post, "n", "u", (1u128 << 64) + 5, 9);
    assert_eq!(raw_request.elapsed, 5);
    assert_eq!(raw_request.user, 9);
    assert_eq!(raw_request.final_url, "");
    assert_eq!(raw_request.error, "");
    assert!(!raw_request.redirected);
}

#[test]
fn final_url_marks_redirects() {
    let mut raw_request = GooseRequestMetric::new(GooseMethod::Get, "/", "http://a/", 0, 0);
    raw_request.set_final_url("http://a/");
    assert!(!raw_request.redirected);
    raw_request.set_final_url("http://b/");
    assert!(raw_request.redirected);
    assert_eq!(raw_request.final_url, "http://b/");
    // A request that was redirected once stays so.
    raw_request.set_final_url("http://a/");
    assert!(raw_request.redirected);
}

#[test]
fn status_codes_have_three_digits() {
    assert_eq!(StatusCode::from_u16(99), None);
    assert_eq!(StatusCode::from_u16(100).unwrap().as_u16(), 100);
    assert_eq!(StatusCode::from_u16(404).unwrap().as_u16(), 404);
    assert_eq!(StatusCode::from_u16(999).unwrap().as_u16(), 999);
    assert_eq!(StatusCode::from_u16(1000), None);
    let mut raw_request = GooseRequestMetric::new(GooseMethod::Get, "/", "", 0, 0);
    raw_request.set_status_code(StatusCode::from_u16(404));
    assert_eq!(raw_request.status_code, 404);
    raw_request.set_status_code(None);
    assert_eq!(raw_request.status_code, 0);
}

#[test]
fn methods_are_written_in_capitals() {
    assert_eq!(GooseMethod::Delete.as_str(), "DELETE");
    assert_eq!(GooseMethod::Get.as_str(), "GET");
    assert_eq!(GooseMethod::Head.as_str(), "HEAD");
    assert_eq!(GooseMethod::Patch.as_str(), "PATCH");
    assert_eq!(GooseMethod::Post.as_str(), "POST");
    assert_eq!(GooseMethod::Put.as_str(), "PUT");
}

#[test]
fn aggregates_are_ordered_by_method_and_path() {
    let get_a = GooseRequestAggregateMetric::new("a", GooseMethod::Get, 0);
    let get_b = GooseRequestAggregateMetric::new("b", GooseMethod::Get, 0);
    let post_a = GooseRequestAggregateMetric::new("a", GooseMethod::Post, 0);
    assert_eq!(get_a.cmp(&get_b), Ordering::Less);
    assert_eq!(get_b.cmp(&get_a), Ordering::Greater);
    assert_eq!(get_b.cmp(&post_a), Ordering::Less);
    assert_eq!(get_a.cmp(&get_a), Ordering::Equal);
    assert_eq!(get_a.partial_cmp(&post_a), Some(Ordering::Less));
    assert!(get_b < post_a);
}

#[test]
fn response_times_are_rounded_at_the_borders() {
    let cases: Vec<(u64, usize)> = vec![
        (0, 0),
        (99, 99),
        (100, 100),
        (104, 100),
        (105, 110),
        (499, 500),
        (500, 500),
        (549, 500),
        (550, 600),
        (999, 1000),
        (1000, 1000),
        (1499, 1000),
        (1500, 2000),
    ];
    for (time, bucket) in cases {
        let mut aggregate = GooseRequestAggregateMetric::new("/", GooseMethod::Get, 1);
        aggregate.set_response_time(time);
        assert_eq!(aggregate.response_times.len(), 1);
        assert_eq!(aggregate.response_times[&bucket], 1);
        assert_eq!(aggregate.max_response_time, time as usize);
        assert_eq!(aggregate.load_test_hash, 1);
    }
}

#[test]
fn task_times_are_rounded_at_the_borders() {
    let cases: Vec<(u64, usize)> = vec![
        (0, 0),
        (100, 100),
        (101, 100),
        (105, 110),
        (500, 500),
        (501, 500),
        (549, 500),
        (550, 600),
        (750, 800),
        (1000, 1000),
        (1001, 1000),
        (1500, 2000),
        (2345, 2000),
        (2500, 3000),
    ];
    for (time, bucket) in cases {
        let mut aggregate = GooseTaskAggregateMetric::new(2, "set", 3, "task");
        aggregate.set_time(time, true);
        assert_eq!(aggregate.times.len(), 1);
        assert_eq!(aggregate.times[&bucket], 1);
        assert_eq!(aggregate.total_time, time as usize);
    }
}

#[test]
fn task_runs_are_aggregated() {
    let mut aggregate = GooseTaskAggregateMetric::new(2, "set", 3, "task");
    assert_eq!(aggregate.taskset_index, 2);
    assert_eq!(aggregate.taskset_name, "set");
    assert_eq!(aggregate.task_index, 3);
    assert_eq!(aggregate.task_name, "task");
    aggregate.set_time(12, true);
    aggregate.set_time(5, false);
    aggregate.set_time(12, true);
    assert_eq!(aggregate.min_time, 5);
    assert_eq!(aggregate.max_time, 12);
    assert_eq!(aggregate.total_time, 29);
    assert_eq!(aggregate.counter, 3);
    assert_eq!(aggregate.success_count, 2);
    assert_eq!(aggregate.fail_count, 1);
    assert_eq!(aggregate.times[&12], 2);
    assert_eq!(aggregate.times[&5], 1);
}

#[test]
fn long_task_times_are_counted_near_themselves() {
    let mut aggregate = GooseTaskAggregateMetric::new(0, "Set", 0, "task");
    aggregate.set_time(750, true);
    aggregate.set_time(2345, true);
    assert_eq!(aggregate.times.len(), 2);
    assert_eq!(aggregate.times[&800], 1);
    assert_eq!(aggregate.times[&2000], 1);
}

#[test]
fn a_minimum_of_zero_stays() {
    let mut aggregate = GooseTaskAggregateMetric::new(0, "set", 0, "task");
    aggregate.set_time(5, true);
    assert_eq!(aggregate.min_time, 5);
    aggregate.set_time(0, true);
    assert_eq!(aggregate.min_time, 0);
    aggregate.set_time(7, true);
    assert_eq!(aggregate.min_time, 0);
    let mut request = GooseRequestAggregateMetric::new("/", GooseMethod::Get, 0);
    request.set_response_time(0);
    assert_eq!(request.min_response_time, 0);
    request.set_response_time(5);
    assert_eq!(request.min_response_time, 0);
    assert_eq!(request.max_response_time, 5);
}

#[test]
fn raw_task_keeps_what_it_is_told() {
    let mut raw_task = GooseTaskMetric::new((1u128 << 64) + 8, 1, 2, "task".to_string(), 4);
    assert_eq!(raw_task.elapsed, 8);
    assert_eq!(raw_task.run_time, 0);
    assert!(raw_task.success);
    raw_task.set_time(33, false);
    assert_eq!(raw_task.run_time, 33);
    assert!(!raw_task.success);
    assert_eq!((raw_task.taskset_index, raw_task.task_index, raw_task.user), (1, 2, 4));
    assert_eq!(raw_task.name, "task");
}

#[test]
fn tasks_are_initialized_unless_disabled() {
    let mut metrics = GooseMetrics::default();
    metrics.initialize_task_metrics(&task_sets(), &configuration());
    assert_eq!(metrics.tasks.len(), 2);
    assert_eq!(metrics.tasks[0].len(), 2);
    assert_eq!(metrics.tasks[1].len(), 0);
    assert_eq!(metrics.tasks[0][1], GooseTaskAggregateMetric::new(0, "Anonymous", 1, "login"));

    let mut disabled = configuration();
    disabled.no_task_metrics = true;
    metrics.initialize_task_metrics(&task_sets(), &disabled);
    assert_eq!(metrics.tasks.len(), 0);

    metrics.initialize_task_metrics(&task_sets(), &configuration());
    let mut disabled = configuration();
    disabled.no_metrics = true;
    metrics.initialize_task_metrics(&task_sets(), &disabled);
    assert_eq!(metrics.tasks.len(), 0);
}

#[test]
fn start_is_zero_until_set() {
    let mut metrics = GooseMetrics::default();
    assert_eq!(metrics.started_timestamp(), 0);
    metrics.started = Some(1_600_000_000);
    assert_eq!(metrics.started_timestamp(), 1_600_000_000);
}

#[test]
fn requests_are_kept_by_method_and_name() {
    let mut attack = attack();
    for metric in vec![
        GooseMetric::Request(request("/", 40, true)),
        GooseMetric::Request(request("/", 60, false)),
        GooseMetric::Request(request("/about", 5, true)),
    ] {
        assert!(attack.accepts(&metric));
        attack.record_metric(&metric);
    }
    let front = attack.metrics.requests.get("GET /").unwrap();
    assert_eq!(front.path, "/");
    assert_eq!(front.method, GooseMethod::Get);
    assert_eq!(front.success_count, 1);
    assert_eq!(front.fail_count, 1);
    assert_eq!(front.response_time_counter, 2);
    assert_eq!(front.total_response_time, 100);
    assert_eq!(front.min_response_time, 40);
    assert_eq!(front.max_response_time, 60);
    assert_eq!(front.status_code_counts[&200], 1);
    assert_eq!(front.status_code_counts[&503], 1);
    assert_eq!(front.load_test_hash, 0);
    assert_eq!(attack.metrics.requests.get("GET /about").unwrap().success_count, 1);
    assert!(attack.metrics.requests.get("POST /").is_none());
    assert_eq!(attack.metrics.requests.sorted_names(), vec!["GET /", "GET /about"]);
}

#[test]
fn status_codes_are_counted_on_request_only() {
    let mut attack = attack();
    attack.configuration.status_codes = false;
    attack.record_request(&request("/", 40, true));
    assert!(attack.metrics.requests.get("GET /").unwrap().status_code_counts.is_empty());
}

#[test]
fn updates_move_requests_and_back() {
    let mut attack = attack();
    attack.record_request(&request("/", 40, true));
    attack.record_request(&request("/", 50, true));
    let mut update = request("/", 40, true);
    update.update = true;
    // There is no failure that could become a success.
    assert!(!attack.accepts(&GooseMetric::Request(update.clone())));
    update.success = false;
    assert!(attack.accepts(&GooseMetric::Request(update.clone())));
    attack.record_request(&update);
    let front = attack.metrics.requests.get("GET /").unwrap().clone();
    assert_eq!((front.success_count, front.fail_count), (1, 1));
    assert_eq!(front.response_time_counter, 2);
    update.success = true;
    attack.record_request(&update);
    let front = attack.metrics.requests.get("GET /").unwrap().clone();
    assert_eq!((front.success_count, front.fail_count), (2, 0));
    assert_eq!(front.response_time_counter, 2);
    // An update of a request that was never made finds nothing.
    let mut unknown = request("/unknown", 40, false);
    unknown.update = true;
    assert!(!attack.accepts(&GooseMetric::Request(unknown)));
}

#[test]
fn errors_are_counted_by_text_method_and_name() {
    let mut attack = attack();
    attack.record_request(&request("/", 40, false));
    attack.record_request(&request("/", 40, false));
    attack.record_request(&request("/about", 40, false));
    attack.record_request(&request("/", 40, true));
    assert_eq!(occurrences(&attack, "503 Service Unavailable.GET./"), Some(2));
    assert_eq!(occurrences(&attack, "503 Service Unavailable.GET./about"), Some(1));
    assert_eq!(attack.metrics.errors.keys().len(), 2);
    let error = attack.metrics.errors.get("503 Service Unavailable.GET./").unwrap();
    assert_eq!(error.method, GooseMethod::Get);
    assert_eq!(error.name, "/");
    assert_eq!(error.error, "503 Service Unavailable");
    // Errors that a worker sends are added to those.
    let mut sent = GooseErrorMetric::new(
        GooseMethod::Get,
        "/".to_string(),
        "503 Service Unavailable".to_string(),
    );
    assert_eq!(sent.occurrences, 0);
    sent.occurrences = 40;
    attack.record_metric(&GooseMetric::Error(sent));
    assert_eq!(occurrences(&attack, "503 Service Unavailable.GET./"), Some(42));
}

#[test]
fn errors_are_not_tracked_without_summary() {
    let mut attack = attack();
    attack.configuration.no_error_summary = true;
    attack.record_request(&request("/", 40, false));
    attack.record_error(&request("/", 40, false));
    assert!(attack.metrics.errors.is_empty());
    assert_eq!(attack.metrics.requests.get("GET /").unwrap().fail_count, 1);
}

#[test]
fn recorded_errors_need_no_request() {
    let mut attack = attack();
    attack.record_error(&request("/", 40, false));
    assert_eq!(occurrences(&attack, "503 Service Unavailable.GET./"), Some(1));
    assert!(attack.metrics.requests.is_empty());
}

#[test]
fn full_counters_are_refused() {
    let mut attack = attack();
    let mut sent =
        GooseErrorMetric::new(GooseMethod::Put, "n".to_string(), "e".to_string());
    sent.occurrences = usize::MAX;
    attack.record_metric(&GooseMetric::Error(sent.clone()));
    assert!(!attack.accepts(&GooseMetric::Error(sent.clone())));
    sent.occurrences = 0;
    assert!(attack.accepts(&GooseMetric::Error(sent)));
    let mut raw_request =
        GooseRequestMetric::new(GooseMethod::Put, "n", "http://localhost/", 0, 0);
    assert!(attack.accepts(&GooseMetric::Request(raw_request.clone())));
    raw_request.error = "e".to_string();
    assert!(!attack.accepts(&GooseMetric::Request(raw_request)));
}

#[test]
fn tasks_are_recorded_in_place() {
    let mut attack = attack();
    attack.metrics.initialize_task_metrics(&task_sets(), &configuration());
    let mut raw_task = GooseTaskMetric::new(0, 0, 1, "login".to_string(), 0);
    raw_task.set_time(30, true);
    assert!(attack.accepts(&GooseMetric::Task(raw_task.clone())));
    attack.record_task(&raw_task);
    raw_task.set_time(20, false);
    attack.record_metric(&GooseMetric::Task(raw_task));
    assert_eq!(attack.metrics.tasks[0][0].counter, 0);
    let login = &attack.metrics.tasks[0][1];
    assert_eq!((login.counter, login.success_count, login.fail_count), (2, 1, 1));
    assert_eq!((login.min_time, login.max_time, login.total_time), (20, 30, 50));
    // Tasks that do not exist are refused.
    let unknown = GooseTaskMetric::new(0, 1, 0, "none".to_string(), 0);
    assert!(!attack.accepts(&GooseMetric::Task(unknown)));
    let unknown = GooseTaskMetric::new(0, 2, 0, "none".to_string(), 0);
    assert!(!attack.accepts(&GooseMetric::Task(unknown)));
}

#[test]
fn log_formats_are_named() {
    let mut configuration = configuration();
    assert_eq!(configuration.log_format(), Some(LogFormat::Json));
    configuration.requests_format = "csv".to_string();
    assert_eq!(configuration.log_format(), Some(LogFormat::Csv));
    configuration.requests_format = "raw".to_string();
    assert_eq!(configuration.log_format(), Some(LogFormat::Raw));
    configuration.requests_format = "JSON".to_string();
    assert_eq!(configuration.log_format(), None);
}

/// Receives what waits, and reads the timer from a list.
fn run(attack: &mut GooseAttack, flush: bool, waiting: usize, readings: &[u128]) -> (usize, bool) {
    let mut receiver = Receiver::new(flush);
    let mut action = ReceiveAction::Receive;
    let mut taken = 0;
    let mut read = 0;
    loop {
        let event = match action {
            ReceiveAction::Receive => {
                if taken < waiting {
                    taken += 1;
                    ReceiveEvent::Metric(GooseMetric::Request(request("/", 40, true)))
                } else {
                    ReceiveEvent::Nothing
                }
            }
            ReceiveAction::ReadTimer => {
                read += 1;
                ReceiveEvent::Elapsed(readings[read - 1])
            }
            ReceiveAction::Finish(received) => return (taken, received),
        };
        action = attack.receive(&mut receiver, &event);
    }
}

#[test]
fn nothing_is_received_where_nothing_waits() {
    let mut attack = attack();
    assert_eq!(run(&mut attack, false, 0, &[]), (0, false));
    assert_eq!(run(&mut attack, true, 0, &[]), (0, false));
    assert!(attack.metrics.requests.is_empty());
}

#[test]
fn receiving_stops_after_the_timeout() {
    let mut attack = attack();
    assert_eq!(run(&mut attack, false, 5, &[0, 399, 400, 0, 0]), (3, true));
    assert_eq!(attack.metrics.requests.get("GET /").unwrap().response_time_counter, 3);
    assert_eq!(run(&mut attack, false, 2, &[1, 2]), (2, true));
    assert_eq!(attack.metrics.requests.get("GET /").unwrap().response_time_counter, 5);
}

#[test]
fn flushing_never_reads_the_timer() {
    let mut attack = attack();
    assert_eq!(run(&mut attack, true, 5, &[]), (5, true));
    assert_eq!(attack.metrics.requests.get("GET /").unwrap().response_time_counter, 5);
}
