use goose_metrics::attack::GooseAttack;
use goose_metrics::codes::{can_merge_codes, format_codes, prepare_status_codes};
use goose_metrics::counts::{
    ratios_of_table, sum_of_tallies, tally_list, CountFigures, CountRatios, Tally,
};
use goose_metrics::display::{write_status_codes, ReportFigures};
use goose_metrics::error::GooseErrorMetric;
use goose_metrics::figures::{average, determine_precision, fail_share, Figure, Ratio};
use goose_metrics::goose::{GooseConfiguration, GooseMethod, GooseTask, GooseTaskSet};
use goose_metrics::metrics::{GooseMetric, GooseMetrics};
use goose_metrics::order::sorted_descending;
use goose_metrics::request::GooseRequestMetric;
use goose_metrics::task::GooseTaskMetric;
use goose_metrics::text::{
    align_left, align_right, decimal_text, text_equals, text_precedes, truncate_string,
};
use goose_metrics::times::{can_merge_times, median, merge_times, value_at_rank};
use goose_metrics::timing::{
    averages_of_table, calculate_response_time_percentile, queries_of_table, sum_of_times,
    PercentileQuery, TimeSummary,
};
use goose_metrics::writing::{write_action, WriteAction};
use std::collections::{BTreeMap, HashMap};

const RULE: &str =
    " ------------------------------------------------------------------------------\n";

fn value(ratio: &Ratio) -> f32 {
    ratio.numerator as f32 / ratio.denominator as f32
}

fn figure(number: f32) -> Figure {
    Figure {
        whole: number as usize,
        rounded: format!("{:.0}", number),
        tenths: format!("{:.1}", number),
        hundredths: format!("{:.2}", number),
    }
}

fn count_figures(ratios: &[CountRatios]) -> Vec<CountFigures> {
    ratios
        .iter()
        .map(|row| CountFigures {
            fail_percent: figure(value(&row.fail_percent) * 100.0),
            per_second: figure(value(&row.per_second)),
            fails_per_second: figure(value(&row.fails_per_second)),
        })
        .collect()
}

fn averages(ratios: &[Ratio]) -> Vec<Figure> {
    ratios.iter().map(|ratio| figure(value(ratio))).collect()
}

fn ranks(queries: &[PercentileQuery]) -> Vec<usize> {
    queries
        .iter()
        .map(|query| {
            (query.total as f32 * (query.ten_thousandths as f32 / 10000.0)).round() as usize
        })
        .collect()
}

fn report_figures(metrics: &GooseMetrics) -> ReportFigures {
    let ratios = metrics.report_ratios().unwrap();
    ReportFigures {
        tasks: count_figures(&ratios.tasks),
        task_times: averages(&ratios.task_times),
        requests: count_figures(&ratios.requests),
        response_times: averages(&ratios.response_times),
        percentiles: ranks(&ratios.percentiles),
    }
}

fn request(method: GooseMethod, name: &str, time: u128, success: bool) -> GooseMetric {
    let mut raw_request = GooseRequestMetric::new(method, name, "http://localhost/", 0, 0);
    raw_request.set_response_time(time);
    raw_request.status_code = if success { 200 } else { 503 };
    raw_request.success = success;
    if !success {
        raw_request.error = "503 Service Unavailable: /".to_string();
    }
    GooseMetric::Request(raw_request)
}

fn task(index: usize, time: u128, success: bool) -> GooseMetric {
    let mut raw_task = GooseTaskMetric::new(0, 0, index, String::new(), 0);
    raw_task.set_time(time, success);
    GooseMetric::Task(raw_task)
}

fn attack() -> GooseAttack {
    GooseAttack {
        metrics: GooseMetrics::default(),
        configuration: GooseConfiguration {
            no_metrics: false,
            no_task_metrics: false,
            no_error_summary: false,
            status_codes: true,
            requests_format: "raw".to_string(),
        },
    }
}

fn record(attack: &mut GooseAttack, metrics: Vec<GooseMetric>) {
    for metric in metrics {
        assert!(attack.accepts(&metric));
        attack.record_metric(&metric);
    }
}

/// Two requests, one of them failing at times, in a load test of ten seconds.
fn two_requests() -> GooseAttack {
    let mut attack = attack();
    attack.metrics.duration = 10;
    let mut metrics = vec![];
    for _ in 0..3 {
        metrics.push(request(GooseMethod::Post, "login", 250, true));
    }
    metrics.push(request(GooseMethod::Post, "login", 1250, false));
    metrics.push(request(GooseMethod::Get, "a page with a rather long name", 7, true));
    record(&mut attack, metrics);
    attack
}

fn two_tasks() -> GooseAttack {
    let mut attack = attack();
    attack.metrics.duration = 2;
    attack.metrics.display_metrics = true;
    let task_sets = vec![
        GooseTaskSet { task_sets_index: 0, name: "Empty".to_string(), tasks: vec![] },
        GooseTaskSet {
            task_sets_index: 1,
            name: "Users".to_string(),
            tasks: vec![
                GooseTask { tasks_index: 0, name: "front".to_string() },
                GooseTask { tasks_index: 1, name: "login".to_string() },
            ],
        },
    ];
    attack.metrics.initialize_task_metrics(&task_sets, &attack.configuration);
    for index in 0..2 {
        for time in vec![10, 20] {
            let metric = match task(index, time, index == 0) {
                GooseMetric::Task(mut raw_task) => {
                    raw_task.taskset_index = 1;
                    GooseMetric::Task(raw_task)
                }
                other => other,
            };
            record(&mut attack, vec![metric]);
        }
    }
    attack
}

#[test]
fn numbers_are_grouped_by_three_digits() {
    let mut times: BTreeMap<usize, usize> = BTreeMap::new();
    for (time, text) in vec![
        (0, "0"),
        (999, "999"),
        (1000, "1,000"),
        (12_034, "12,034"),
        (987_654_000, "987,654,000"),
    ] {
        times.clear();
        times.insert(time, 1);
        assert_eq!(calculate_response_time_percentile(&times, 1, 0, usize::MAX), text);
    }
}

#[test]
fn texts_are_cut_and_aligned() {
    assert_eq!(truncate_string("abcdef", 6), "abcdef");
    assert_eq!(truncate_string("abcdefg", 6), "abcd..");
    assert_eq!(truncate_string("äöüäöüä", 6), "äöüä..");
    assert_eq!(align_left("ab", 4), format!("{:<4}", "ab"));
    assert_eq!(align_right("ab", 4), format!("{:>4}", "ab"));
    assert_eq!(align_right("äb", 4), format!("{:>4}", "äb"));
    assert_eq!(align_left("abcde", 4), "abcde");
    assert_eq!(align_right("abcde", 4), "abcde");
    assert_eq!(decimal_text(0), "0");
    assert_eq!(decimal_text(10_203), "10203");
}

#[test]
fn texts_are_ordered_by_their_bytes() {
    for (a, b) in vec![("", "a"), ("a", "ab"), ("B", "a"), ("z", "ä"), ("GET /", "GET /a")] {
        assert_eq!(text_precedes(a, b), a < b);
        assert_eq!(text_precedes(b, a), b < a);
        assert!(!text_precedes(a, a));
        assert!(!text_equals(a, b));
        assert!(text_equals(b, b));
    }
}

#[test]
fn merged_times_are_added() {
    let a: BTreeMap<usize, usize> = vec![(1, 2), (5, 1)].into_iter().collect();
    let b: BTreeMap<usize, usize> = vec![(5, 3), (9, 4)].into_iter().collect();
    let expected: BTreeMap<usize, usize> = vec![(1, 2), (5, 4), (9, 4)].into_iter().collect();
    assert!(can_merge_times(&a, &b));
    assert_eq!(merge_times(a.clone(), b.clone()), expected);
    assert_eq!(merge_times(b.clone(), a.clone()), expected);
    assert_eq!(merge_times(a.clone(), BTreeMap::new()), a);
    let full: BTreeMap<usize, usize> = vec![(5, usize::MAX)].into_iter().collect();
    assert!(!can_merge_times(&a, &full));
    assert!(!can_merge_times(&full, &a));
}

#[test]
fn ranks_find_the_least_time_that_reaches_them() {
    let times: BTreeMap<usize, usize> = vec![(3, 2), (7, 1), (20, 3)].into_iter().collect();
    let found: Vec<usize> = (0..8).map(|rank| value_at_rank(&times, rank, 0, 100)).collect();
    assert_eq!(found, vec![3, 3, 3, 7, 20, 20, 20, 0]);
    assert_eq!(value_at_rank(&times, 1, 4, 18), 4);
    assert_eq!(value_at_rank(&times, 6, 4, 18), 18);
    assert_eq!(value_at_rank(&BTreeMap::new(), 0, 4, 18), 0);
}

#[test]
fn median_is_the_middle_one() {
    let times: BTreeMap<usize, usize> = vec![(1, 1), (2, 1), (9, 1)].into_iter().collect();
    assert_eq!(median(&times, 3, 1, 9), 2);
    assert_eq!(median(&times, 2, 1, 9), 1);
    assert_eq!(median(&times, 5, 1, 9), 9);
    assert_eq!(median(&times, 3, 5, 9), 5);
}

#[test]
fn precision_depends_on_size() {
    assert_eq!(determine_precision(&figure(0.0)), 2);
    assert_eq!(determine_precision(&figure(999.99)), 2);
    assert_eq!(determine_precision(&figure(1000.0)), 0);
}

#[test]
fn fractions_of_nothing_are_zero() {
    assert_eq!(value(&average(0, 0)), 0.0);
    assert_eq!(value(&average(7, 0)), 0.0);
    assert_eq!(value(&average(7, 2)), 3.5);
    assert_eq!(value(&fail_share(0, 0)), 0.0);
    assert_eq!(value(&fail_share(8, 2)), 0.25);
}

#[test]
fn tallies_are_added_up() {
    let tallies = tally_list(&vec![(3, 1), (0, 0), (5, 5)]).unwrap();
    assert_eq!(
        tallies,
        vec![
            Tally { total: 4, fail: 1 },
            Tally { total: 0, fail: 0 },
            Tally { total: 10, fail: 5 }
        ]
    );
    assert_eq!(sum_of_tallies(&tallies), Tally { total: 14, fail: 6 });
    assert_eq!(tally_list(&vec![(usize::MAX, 0), (0, 1)]), None);
    assert_eq!(tally_list(&vec![(usize::MAX, 1)]), None);
    let ratios = ratios_of_table(7, &tallies);
    assert_eq!(ratios.len(), 4);
    assert_eq!(value(&ratios[3].per_second), 2.0);
    assert_eq!(value(&ratios[3].fail_percent), 6.0 / 14.0);
    assert_eq!(ratios_of_table(7, &vec![tallies[0]]).len(), 1);
}

#[test]
fn summaries_are_taken_together() {
    let summary = |time: usize, count: usize| TimeSummary {
        times: vec![(time, count)].into_iter().collect(),
        total: time * count,
        counter: count,
        min: time,
        max: time,
    };
    let rows = vec![summary(10, 2), summary(0, 0), summary(30, 1)];
    let sum = sum_of_times(&rows).unwrap();
    assert_eq!((sum.total, sum.counter, sum.min, sum.max), (50, 3, 10, 30));
    assert_eq!(sum.times[&10], 2);
    assert_eq!(averages(&averages_of_table(&rows, &sum))[3].hundredths, "16.67");
    let queries = queries_of_table(&rows, &sum);
    assert_eq!(queries.len(), 24);
    assert_eq!(queries[0], PercentileQuery { total: 2, ten_thousandths: 5000 });
    assert_eq!(queries[4], PercentileQuery { total: 2, ten_thousandths: 9990 });
    assert_eq!(queries[5], PercentileQuery { total: 2, ten_thousandths: 9999 });
    assert_eq!(queries[23], PercentileQuery { total: 3, ten_thousandths: 9999 });
    let mut full = summary(1, 1);
    full.total = usize::MAX;
    assert_eq!(sum_of_times(&vec![summary(10, 2), full]), None);
}

#[test]
fn requests_are_displayed() {
    let attack = two_requests();
    let metrics = &attack.metrics;
    let figures = count_figures(&metrics.request_ratios().unwrap());
    let mut expected = format!("\n === PER REQUEST METRICS ===\n{}", RULE);
    expected += " Name                     |        # reqs |        # fails |    req/s |  fail/s\n";
    expected += RULE;
    expected += " GET a page with a rath.. |             1 |         0 (0%) |     0.10 |    0.00\n";
    expected += " POST login               |             4 |      1 (25.0%) |     0.40 |    0.10\n";
    expected += " -------------------------+---------------+----------------+----------+--------\n";
    expected += " Aggregated               |             5 |      1 (20.0%) |     0.50 |    0.10\n";
    assert_eq!(metrics.fmt_requests(&figures), expected);
}

#[test]
fn one_request_has_no_aggregate() {
    let mut attack = attack();
    attack.metrics.duration = 1;
    let metrics = (0..1500).map(|_| request(GooseMethod::Get, "/", 1, false)).collect();
    record(&mut attack, metrics);
    let metrics = &attack.metrics;
    let figures = count_figures(&metrics.request_ratios().unwrap());
    assert_eq!(figures.len(), 1);
    let text = metrics.fmt_requests(&figures);
    assert!(text.ends_with(
        " GET /                    |         1,500 |   1,500 (100%) |     1500 |    1500\n"
    ));
    assert!(!text.contains("Aggregated"));
}

#[test]
fn only_all_and_nothing_are_compressed() {
    for (success, fail, cell) in vec![
        (199, 1, "1 (0.5%)"),
        (0, 1, "1 (100%)"),
        (1, 0, "0 (0%)"),
        (1, 199, "199 (99.5%)"),
        (2_999, 1, "1 (0%)"),
        (1, 2_999, "2,999 (100%)"),
    ] {
        let mut attack = attack();
        attack.metrics.duration = 10;
        record(&mut attack, vec![request(GooseMethod::Get, "/a", 1, true)]);
        let mut front = attack.metrics.requests.remove("GET /a").unwrap();
        front.success_count = success;
        front.fail_count = fail;
        attack.metrics.requests.insert("GET /a".to_string(), front);
        let figures = count_figures(&attack.metrics.request_ratios().unwrap());
        let text = attack.metrics.fmt_requests(&figures);
        assert!(text.contains(&format!(" | {:>14} | ", cell)));
    }
}

#[test]
fn the_last_percentile_finds_the_slowest_of_a_thousand() {
    let mut attack = attack();
    attack.metrics.final_metrics = true;
    for i in 0..1000 {
        let time = if i == 999 { 2 } else { 1 };
        record(&mut attack, vec![request(GooseMethod::Get, "/a", time, true)]);
    }
    let figures = ranks(&attack.metrics.percentile_queries().unwrap());
    assert!(attack.metrics.fmt_percentiles(&figures).ends_with(
        " GET /a                   |      1 |      1 |      1 |      1 |      1 |      2\n"
    ));
}

#[test]
fn response_times_are_displayed() {
    let attack = two_requests();
    let metrics = &attack.metrics;
    let figures = averages(&metrics.response_averages().unwrap());
    let mut expected = RULE.to_string();
    expected += " Name                     |    Avg (ms) |        Min |        Max |      Median\n";
    expected += RULE;
    expected += " GET a page with a rath.. |        7.00 |          7 |           7 |          7\n";
    expected += " POST login               |      500.00 |        250 |       1,250 |        250\n";
    expected += " -------------------------+-------------+------------+-------------+-----------\n";
    expected += " Aggregated               |      401.40 |          7 |       1,250 |        250\n";
    assert_eq!(metrics.fmt_response_times(&figures), expected);
}

#[test]
fn percentiles_are_displayed_at_the_end() {
    let mut attack = two_requests();
    assert_eq!(attack.metrics.percentile_queries().unwrap().len(), 0);
    assert_eq!(attack.metrics.fmt_percentiles(&vec![]), "");
    attack.metrics.final_metrics = true;
    let metrics = &attack.metrics;
    let figures = ranks(&metrics.percentile_queries().unwrap());
    let mut expected = RULE.to_string();
    expected += " Slowest page load within specified percentile of requests (in ms):\n";
    expected += RULE;
    expected += " Name                     |    50% |    75% |    98% |    99% |  99.9% | 99.99%\n";
    expected += RULE;
    expected += " GET a page with a rath.. |      7 |      7 |      7 |      7 |      7 |      7\n";
    expected += " POST login               |    250 |    250 |  1,000 |  1,000 |  1,000 |  1,000\n";
    expected += " -------------------------+--------+--------+--------+--------+--------+-------\n";
    expected += " Aggregated               |    250 |    250 |  1,000 |  1,000 |  1,000 |  1,000\n";
    assert_eq!(metrics.fmt_percentiles(&figures), expected);
}

#[test]
fn tasks_are_displayed() {
    let attack = two_tasks();
    let metrics = &attack.metrics;
    let figures = count_figures(&metrics.task_ratios().unwrap());
    let mut expected = format!("\n === PER TASK METRICS ===\n{}", RULE);
    expected += " Name                     |   # times run |        # fails |   task/s |  fail/s\n";
    expected += RULE;
    expected += " 2: Users                 |\n";
    expected += "   1: front               |             2 |         0 (0%) |     1.00 |    0.00\n";
    expected += "   2: login               |             2 |       2 (100%) |     1.00 |    1.00\n";
    expected += " -------------------------+---------------+----------------+----------+--------\n";
    expected += " Aggregated               |             4 |      2 (50.0%) |     2.00 |    1.00\n";
    assert_eq!(metrics.fmt_tasks(&figures), expected);
}

#[test]
fn task_times_are_displayed() {
    let attack = two_tasks();
    let metrics = &attack.metrics;
    let figures = averages(&metrics.task_averages().unwrap());
    let mut expected = RULE.to_string();
    expected += " Name                     |    Avg (ms) |        Min |         Max |     Median\n";
    expected += RULE;
    expected += " 2: Users                 |\n";
    expected += "   1: front               |       15.00 |         10 |          20 |         10\n";
    expected += "   2: login               |       15.00 |         10 |          20 |         10\n";
    expected += " -------------------------+-------------+------------+-------------+-----------\n";
    expected += " Aggregated               |       15.00 |         10 |          20 |         10\n";
    assert_eq!(metrics.fmt_task_times(&figures), expected);
}

#[test]
fn tasks_are_hidden_on_workers() {
    let mut attack = two_tasks();
    attack.metrics.display_metrics = false;
    assert_eq!(attack.metrics.task_ratios().unwrap().len(), 0);
    assert_eq!(attack.metrics.fmt_tasks(&vec![]), "");
    assert_eq!(attack.metrics.fmt_task_times(&vec![]), "");
}

#[test]
fn numbers_too_large_to_display_are_told() {
    let mut attack = two_tasks();
    attack.metrics.tasks[1][0].task_index = usize::MAX;
    assert!(attack.metrics.task_ratios().is_none());
    assert!(attack.metrics.task_averages().is_none());
    assert!(attack.metrics.report_ratios().is_none());
    attack.metrics.tasks[1][0].task_index = 0;
    attack.metrics.tasks[1][1].taskset_index = usize::MAX;
    assert!(attack.metrics.report_ratios().is_some());
    attack.metrics.tasks[1][0].taskset_index = usize::MAX;
    assert!(attack.metrics.report_ratios().is_none());
}

#[test]
fn codes_are_shown_with_their_counts() {
    assert_eq!(format_codes(&vec![]), "");
    assert_eq!(format_codes(&vec![(200, 1)]), "1 [200]");
    assert_eq!(
        format_codes(&vec![(200, 12_000), (0, 1), (503, 7)]),
        "12,000 [200], 1 [0], 7 [503]"
    );
}

#[test]
fn codes_are_counted_and_aggregated() {
    let counts: HashMap<u16, usize> = vec![(200, 3), (404, 1)].into_iter().collect();
    let mut aggregate: HashMap<u16, usize> = vec![(200, 5), (503, 2)].into_iter().collect();
    assert!(can_merge_codes(&aggregate, &counts));
    let text = prepare_status_codes(&counts, &mut Some(&mut aggregate));
    assert!(text == "3 [200], 1 [404]" || text == "1 [404], 3 [200]");
    let expected: HashMap<u16, usize> = vec![(200, 8), (404, 1), (503, 2)].into_iter().collect();
    assert_eq!(aggregate, expected);
    let single: HashMap<u16, usize> = vec![(200, usize::MAX)].into_iter().collect();
    assert_eq!(
        prepare_status_codes(&single, &mut None),
        "18,446,744,073,709,551,615 [200]"
    );
    assert!(!can_merge_codes(&aggregate, &single));
    assert_eq!(prepare_status_codes(&HashMap::new(), &mut None), "");
}

#[test]
fn status_codes_are_displayed_on_request() {
    let mut attack = attack();
    record(
        &mut attack,
        vec![
            request(GooseMethod::Get, "/", 1, true),
            request(GooseMethod::Get, "/", 1, true),
            request(GooseMethod::Put, "/", 1, true),
        ],
    );
    assert!(attack.metrics.status_codes_fit());
    assert_eq!(attack.metrics.fmt_status_codes(), "");
    attack.metrics.display_status_codes = true;
    assert!(attack.metrics.status_codes_fit());
    let mut expected = RULE.to_string();
    expected += &format!(" {:<24} | {:>51} \n", "Name", "Status codes");
    expected += RULE;
    expected += &format!(" {:<24} | {:>51}\n", "GET /", "2 [200]");
    expected += &format!(" {:<24} | {:>51}\n", "PUT /", "1 [200]");
    expected += " -------------------------+----------------------------------------------------\n";
    expected += &format!(" {:<24} | {:>51} \n", "Aggregated", "3 [200]");
    assert_eq!(attack.metrics.fmt_status_codes(), expected);
    assert_eq!(
        write_status_codes(
            &vec!["GET /".to_string(), "PUT /".to_string()],
            &vec!["2 [200]".to_string(), "1 [200]".to_string()],
            "3 [200]"
        ),
        expected
    );
}

#[test]
fn pairs_are_sorted_by_number_and_text() {
    let pair = |number: usize, text: &str| (number, text.to_string());
    assert_eq!(
        sorted_descending(vec![pair(1, "b"), pair(3, "a"), pair(1, "c"), pair(3, "a")]),
        vec![pair(3, "a"), pair(3, "a"), pair(1, "c"), pair(1, "b")]
    );
}

#[test]
fn errors_are_displayed_at_the_end() {
    let mut attack = attack();
    for (name, occurrences) in vec![("front page", 36), ("login", 1_924), ("about", 36)] {
        let mut error = GooseErrorMetric::new(
            GooseMethod::Get,
            name.to_string(),
            "503 Service Unavailable: /".to_string(),
        );
        error.occurrences = occurrences;
        record(&mut attack, vec![GooseMetric::Error(error)]);
    }
    assert!(!attack.metrics.shows_errors());
    assert_eq!(attack.metrics.fmt_errors(), "");
    attack.metrics.final_metrics = true;
    assert!(attack.metrics.shows_errors());
    let mut expected = format!("\n === ERRORS ===\n{}", RULE);
    expected += " Count       | Error\n";
    expected += RULE;
    expected += " 1,924         GET login: 503 Service Unavailable: /\n";
    expected += " 36            GET front page: 503 Service Unavailable: /\n";
    expected += " 36            GET about: 503 Service Unavailable: /\n";
    expected += RULE;
    assert_eq!(attack.metrics.fmt_errors(), expected);
    let mut without = GooseMetrics::default();
    without.final_metrics = true;
    assert_eq!(without.fmt_errors(), "");
}

#[test]
fn all_tables_are_printed_in_order() {
    let mut attack = two_tasks();
    record(
        &mut attack,
        vec![
            request(GooseMethod::Get, "/", 12, true),
            request(GooseMethod::Get, "/", 12, true),
        ],
    );
    record(&mut attack, vec![request(GooseMethod::Get, "/b", 12, false)]);
    attack.metrics.display_status_codes = true;
    attack.metrics.final_metrics = true;
    let metrics = &attack.metrics;
    let figures = report_figures(metrics);
    let status_codes = metrics.fmt_status_codes();
    let text = metrics.fmt_with_status_codes(&figures, &status_codes);
    let mut position = 0;
    for part in vec![
        "PER TASK METRICS",
        "2: Users",
        "Median",
        "PER REQUEST METRICS",
        "Median",
        "Slowest page load",
        "Status codes",
        "ERRORS",
    ] {
        let found = text[position..].find(part).unwrap();
        position += found + part.len();
    }
    let parts = vec![
        metrics.fmt_tasks(&figures.tasks),
        metrics.fmt_task_times(&figures.task_times),
        metrics.fmt_requests(&figures.requests),
        metrics.fmt_response_times(&figures.response_times),
        metrics.fmt_percentiles(&figures.percentiles),
        status_codes,
        metrics.fmt_errors(),
    ];
    assert_eq!(text, parts.concat());
    // The codes of one request may be written in another order the next time.
    assert_eq!(metrics.fmt_parts(&figures).len(), 7);
    assert_eq!(metrics.fmt_parts_with_status_codes(&figures, &parts[5]), parts);
    assert_eq!(metrics.print(&figures).unwrap().len(), text.len());
    assert_eq!(metrics.print_running(&figures).unwrap().len(), text.len() + 1);
    assert!(metrics.print_running(&figures).unwrap().ends_with("\n\n"));
}

#[test]
fn fresh_metrics_print_nothing() {
    let mut metrics = GooseMetrics::default();
    let figures = report_figures(&metrics);
    assert_eq!(metrics.fmt(&figures), "");
    assert_eq!(metrics.print(&figures), None);
    assert_eq!(metrics.print_running(&figures), None);
    metrics.display_metrics = true;
    assert_eq!(metrics.print(&figures), Some("".to_string()));
    assert_eq!(metrics.print_running(&figures), Some("\n".to_string()));
}

#[test]
fn hidden_metrics_print_nothing() {
    let attack = two_requests();
    let figures = report_figures(&attack.metrics);
    assert!(!attack.metrics.fmt(&figures).is_empty());
    assert_eq!(attack.metrics.print(&figures), None);
    assert_eq!(attack.metrics.print_running(&figures), None);
}

/// Writes parts, of which those up to `failing` can be written.
fn write_parts(parts: &Vec<String>, failing: usize) -> (String, bool) {
    let mut text = String::new();
    let mut written = 0;
    let mut failed = false;
    loop {
        match write_action(parts, written, failed) {
            WriteAction::Write(part) => {
                failed = part >= failing;
                if !failed {
                    text += &parts[part];
                    written += 1;
                }
            }
            WriteAction::Finish(success) => return (text, success),
        }
    }
}

#[test]
fn writing_ends_with_the_first_failure() {
    let attack = two_requests();
    let figures = report_figures(&attack.metrics);
    let parts = attack.metrics.fmt_parts(&figures);
    assert_eq!(write_parts(&parts, 7), (attack.metrics.fmt(&figures), true));
    assert_eq!(write_parts(&parts, 0), (String::new(), false));
    assert_eq!(write_parts(&parts, 3), (attack.metrics.fmt_requests(&figures.requests), false));
    let fresh = GooseMetrics::default();
    let parts = fresh.fmt_parts(&report_figures(&fresh));
    assert_eq!(write_parts(&parts, 7), (String::new(), true));
}
