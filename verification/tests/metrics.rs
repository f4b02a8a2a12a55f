use goose_metrics::figures::{per_second_calculations, Ratio};
use goose_metrics::goose::{GooseMethod, StatusCode};
use goose_metrics::request::{GooseRequestAggregateMetric, GooseRequestMetric};
use goose_metrics::times::{merge_times, update_max_time, update_min_time};
use goose_metrics::timing::calculate_response_time_percentile;
use std::collections::BTreeMap;

/// The response time that a part of all requests finished within.
fn percentile(
    response_times: &BTreeMap<usize, usize>,
    total_requests: usize,
    min: usize,
    max: usize,
    percent: f32,
) -> String {
    let percentile_request = (total_requests as f32 * percent).round() as usize;
    calculate_response_time_percentile(response_times, percentile_request, min, max)
}

/// Requests and fails per second.
fn per_second(duration: usize, total: usize, fail: usize) -> (f32, f32) {
    let value = |ratio: Ratio| ratio.numerator as f32 / ratio.denominator as f32;
    let (requests, fails) = per_second_calculations(duration, total, fail);
    (value(requests), value(fails))
}

#[test]
fn max_response_time() {
    let mut max_response_time = 99;
    // Update max response time to a higher value.
    max_response_time = update_max_time(max_response_time, 101);
    assert_eq!(max_response_time, 101);
    // Max response time doesn't update when updating with a lower value.
    max_response_time = update_max_time(max_response_time, 1);
    assert_eq!(max_response_time, 101);
}

#[test]
fn min_response_time() {
    let mut min_response_time = 11;
    // Update min response time to a lower value.
    min_response_time = update_min_time(min_response_time, 9);
    assert_eq!(min_response_time, 9);
    // Min response time doesn't update when updating with a lower value.
    min_response_time = update_min_time(min_response_time, 22);
    assert_eq!(min_response_time, 9);
    // Min response time doesn't update when updating with a 0 value.
    min_response_time = update_min_time(min_response_time, 0);
    assert_eq!(min_response_time, 9);
}

#[test]
fn response_time_merge() {
    let mut global_response_times: BTreeMap<usize, usize> = BTreeMap::new();
    let local_response_times: BTreeMap<usize, usize> = BTreeMap::new();
    global_response_times = merge_times(global_response_times, local_response_times.clone());
    assert_eq!(&global_response_times, &local_response_times);
}

#[test]
fn max_response_time_percentile() {
    let mut response_times: BTreeMap<usize, usize> = BTreeMap::new();
    response_times.insert(1, 1);
    response_times.insert(2, 1);
    response_times.insert(3, 1);
    // 3 * .5 = 1.5, rounds to 2.
    assert!(percentile(&response_times, 3, 1, 3, 0.5) == "2");
    response_times.insert(3, 2);
    // 4 * .5 = 2
    assert!(percentile(&response_times, 4, 1, 3, 0.5) == "2");
    // 4 * .25 = 1
    assert!(percentile(&response_times, 4, 1, 3, 0.25) == "1");
    // 4 * .75 = 3
    assert!(percentile(&response_times, 4, 1, 3, 0.75) == "3");
    // 4 * 1 = 4 (and the 4th response time is also 3)
    assert!(percentile(&response_times, 4, 1, 3, 1.0) == "3");

    // 4 * .5 = 2, but uses specified minimum of 2
    assert!(percentile(&response_times, 4, 2, 3, 0.25) == "2");
    // 4 * .75 = 3, but uses specified maximum of 2
    assert!(percentile(&response_times, 4, 1, 2, 0.75) == "2");

    response_times.insert(10, 25);
    response_times.insert(20, 25);
    response_times.insert(30, 25);
    response_times.insert(50, 25);
    response_times.insert(100, 10);
    response_times.insert(200, 1);
    assert!(percentile(&response_times, 115, 1, 200, 0.9) == "50");
    assert!(percentile(&response_times, 115, 1, 200, 0.99) == "100");
    assert!(percentile(&response_times, 115, 1, 200, 0.999) == "200");
}

#[test]
fn calculate_per_second() {
    // With duration of 0, requests and fails per second is always 0.
    let mut duration = 0;
    let mut total = 10;
    let fail = 10;
    let (requests_per_second, fails_per_second) =
        per_second(duration, total, fail);
    assert!(requests_per_second == 0.0);
    assert!(fails_per_second == 0.0);
    // Changing total doesn't affect requests and fails as duration is still 0.
    total = 100;
    let (requests_per_second, fails_per_second) =
        per_second(duration, total, fail);
    assert!(requests_per_second == 0.0);
    assert!(fails_per_second == 0.0);

    // With non-zero duration, requests and fails per second return properly.
    duration = 10;
    let (requests_per_second, fails_per_second) =
        per_second(duration, total, fail);
    assert!((requests_per_second - 10.0).abs() < f32::EPSILON);
    assert!((fails_per_second - 1.0).abs() < f32::EPSILON);
}

#[test]
fn goose_raw_request() {
    const PATH: &str = "http://127.0.0.1/";
    let mut raw_request = GooseRequestMetric::new(GooseMethod::Get, "/", PATH, 0, 0);
    assert_eq!(raw_request.method, GooseMethod::Get);
    assert_eq!(raw_request.name, "/".to_string());
    assert_eq!(raw_request.url, PATH.to_string());
    assert_eq!(raw_request.response_time, 0);
    assert_eq!(raw_request.status_code, 0);
    assert_eq!(raw_request.success, true);
    assert_eq!(raw_request.update, false);

    let response_time = 123;
    raw_request.set_response_time(response_time);
    assert_eq!(raw_request.method, GooseMethod::Get);
    assert_eq!(raw_request.name, "/".to_string());
    assert_eq!(raw_request.url, PATH.to_string());
    assert_eq!(raw_request.response_time, response_time as u64);
    assert_eq!(raw_request.status_code, 0);
    assert_eq!(raw_request.success, true);
    assert_eq!(raw_request.update, false);

    let status_code = StatusCode::from_u16(http::StatusCode::OK.as_u16()).unwrap();
    raw_request.set_status_code(Some(status_code));
    assert_eq!(raw_request.method, GooseMethod::Get);
    assert_eq!(raw_request.name, "/".to_string());
    assert_eq!(raw_request.url, PATH.to_string());
    assert_eq!(raw_request.response_time, response_time as u64);
    assert_eq!(raw_request.status_code, 200);
    assert_eq!(raw_request.success, true);
    assert_eq!(raw_request.update, false);
}

#[test]
fn goose_request() {
    let mut request = GooseRequestAggregateMetric::new("/", GooseMethod::Get, 0);
    assert_eq!(request.path, "/".to_string());
    assert_eq!(request.method, GooseMethod::Get);
    assert_eq!(request.response_times.len(), 0);
    assert_eq!(request.min_response_time, 0);
    assert_eq!(request.max_response_time, 0);
    assert_eq!(request.total_response_time, 0);
    assert_eq!(request.response_time_counter, 0);
    assert_eq!(request.status_code_counts.len(), 0);
    assert_eq!(request.success_count, 0);
    assert_eq!(request.fail_count, 0);

    // Tracking a response time updates several fields.
    request.set_response_time(1);
    // We've seen only one response time so far.
    assert_eq!(request.response_times.len(), 1);
    // We've seen one response time of length 1.
    assert_eq!(request.response_times[&1], 1);
    // The minimum response time seen so far is 1.
    assert_eq!(request.min_response_time, 1);
    // The maximum response time seen so far is 1.
    assert_eq!(request.max_response_time, 1);
    // We've seen a total of 1 ms of response time so far.
    assert_eq!(request.total_response_time, 1);
    // We've seen a total of 2 response times so far.
    assert_eq!(request.response_time_counter, 1);
    // Nothing else changes.
    assert_eq!(request.path, "/".to_string());
    assert_eq!(request.method, GooseMethod::Get);
    assert_eq!(request.status_code_counts.len(), 0);
    assert_eq!(request.success_count, 0);
    assert_eq!(request.fail_count, 0);

    // Tracking another response time updates all related fields.
    request.set_response_time(10);
    // We've added a new unique response time.
    assert_eq!(request.response_times.len(), 2);
    // We've seen the 10 ms response time 1 time.
    assert_eq!(request.response_times[&10], 1);
    // Minimum doesn't change.
    assert_eq!(request.min_response_time, 1);
    // Maximum is new response time.
    assert_eq!(request.max_response_time, 10);
    // Total combined response times is now 11 ms.
    assert_eq!(request.total_response_time, 11);
    // We've seen two response times so far.
    assert_eq!(request.response_time_counter, 2);
    // Nothing else changes.
    assert_eq!(request.path, "/".to_string());
    assert_eq!(request.method, GooseMethod::Get);
    assert_eq!(request.status_code_counts.len(), 0);
    assert_eq!(request.success_count, 0);
    assert_eq!(request.fail_count, 0);

    // Tracking another response time updates all related fields.
    request.set_response_time(10);
    // We've incremented the counter of an existing response time.
    assert_eq!(request.response_times.len(), 2);
    // We've seen the 10 ms response time 2 times.
    assert_eq!(request.response_times[&10], 2);
    // Minimum doesn't change.
    assert_eq!(request.min_response_time, 1);
    // Maximum doesn't change.
    assert_eq!(request.max_response_time, 10);
    // Total combined response times is now 21 ms.
    assert_eq!(request.total_response_time, 21);
    // We've seen three response times so far.
    assert_eq!(request.response_time_counter, 3);

    // Tracking another response time updates all related fields.
    request.set_response_time(101);
    // We've added a new response time for the first time.
    assert_eq!(request.response_times.len(), 3);
    // The response time was internally rounded to 100, which we've seen once.
    assert_eq!(request.response_times[&100], 1);
    // Minimum doesn't change.
    assert_eq!(request.min_response_time, 1);
    // Maximum increases to actual maximum, not rounded maximum.
    assert_eq!(request.max_response_time, 101);
    // Total combined response times is now 122 ms.
    assert_eq!(request.total_response_time, 122);
    // We've seen four response times so far.
    assert_eq!(request.response_time_counter, 4);

    // Tracking another response time updates all related fields.
    request.set_response_time(102);
    // Due to rounding, this increments the existing 100 ms response time.
    assert_eq!(request.response_times.len(), 3);
    // The response time was internally rounded to 100, which we've now seen twice.
    assert_eq!(request.response_times[&100], 2);
    // Minimum doesn't change.
    assert_eq!(request.min_response_time, 1);
    // Maximum increases to actual maximum, not rounded maximum.
    assert_eq!(request.max_response_time, 102);
    // Add 102 to the total response time so far.
    assert_eq!(request.total_response_time, 224);
    // We've seen five response times so far.
    assert_eq!(request.response_time_counter, 5);

    // Tracking another response time updates all related fields.
    request.set_response_time(155);
    // Adds a new response time.
    assert_eq!(request.response_times.len(), 4);
    // The response time was internally rounded to 160, seen for the first time.
    assert_eq!(request.response_times[&160], 1);
    // Minimum doesn't change.
    assert_eq!(request.min_response_time, 1);
    // Maximum increases to actual maximum, not rounded maximum.
    assert_eq!(request.max_response_time, 155);
    // Add 155 to the total response time so far.
    assert_eq!(request.total_response_time, 379);
    // We've seen six response times so far.
    assert_eq!(request.response_time_counter, 6);

    // Tracking another response time updates all related fields.
    request.set_response_time(2345);
    // Adds a new response time.
    assert_eq!(request.response_times.len(), 5);
    // The response time was internally rounded to 2000, seen for the first time.
    assert_eq!(request.response_times[&2000], 1);
    // Minimum doesn't change.
    assert_eq!(request.min_response_time, 1);
    // Maximum increases to actual maximum, not rounded maximum.
    assert_eq!(request.max_response_time, 2345);
    // Add 2345 to the total response time so far.
    assert_eq!(request.total_response_time, 2724);
    // We've seen seven response times so far.
    assert_eq!(request.response_time_counter, 7);

    // Tracking another response time updates all related fields.
    request.set_response_time(987654321);
    // Adds a new response time.
    assert_eq!(request.response_times.len(), 6);
    // The response time was internally rounded to 987654000, seen for the first time.
    assert_eq!(request.response_times[&987654000], 1);
    // Minimum doesn't change.
    assert_eq!(request.min_response_time, 1);
    // Maximum increases to actual maximum, not rounded maximum.
    assert_eq!(request.max_response_time, 987654321);
    // Add 987654321 to the total response time so far.
    assert_eq!(request.total_response_time, 987657045);
    // We've seen eight response times so far.
    assert_eq!(request.response_time_counter, 8);

    // Tracking status code updates all related fields.
    request.set_status_code(200);
    // We've seen only one status code.
    assert_eq!(request.status_code_counts.len(), 1);
    // First time seeing this status code.
    assert_eq!(request.status_code_counts[&200], 1);
    // As status code tracking is optional, we don't track success/fail here.
    assert_eq!(request.success_count, 0);
    assert_eq!(request.fail_count, 0);
    // Nothing else changes.
    assert_eq!(request.response_times.len(), 6);
    assert_eq!(request.min_response_time, 1);
    assert_eq!(request.max_response_time, 987654321);
    assert_eq!(request.total_response_time, 987657045);
    assert_eq!(request.response_time_counter, 8);

    // Tracking status code updates all related fields.
    request.set_status_code(200);
    // We've seen only one unique status code.
    assert_eq!(request.status_code_counts.len(), 1);
    // Second time seeing this status code.
    assert_eq!(request.status_code_counts[&200], 2);

    // Tracking status code updates all related fields.
    request.set_status_code(0);
    // We've seen two unique status codes.
    assert_eq!(request.status_code_counts.len(), 2);
    // First time seeing a client-side error.
    assert_eq!(request.status_code_counts[&0], 1);

    // Tracking status code updates all related fields.
    request.set_status_code(500);
    // We've seen three unique status codes.
    assert_eq!(request.status_code_counts.len(), 3);
    // First time seeing an internal server error.
    assert_eq!(request.status_code_counts[&500], 1);

    // Tracking status code updates all related fields.
    request.set_status_code(308);
    // We've seen four unique status codes.
    assert_eq!(request.status_code_counts.len(), 4);
    // First time seeing an internal server error.
    assert_eq!(request.status_code_counts[&308], 1);

    // Tracking status code updates all related fields.
    request.set_status_code(200);
    // We've seen four unique status codes.
    assert_eq!(request.status_code_counts.len(), 4);
    // Third time seeing this status code.
    assert_eq!(request.status_code_counts[&200], 3);
    // Nothing else changes.
    assert_eq!(request.success_count, 0);
    assert_eq!(request.fail_count, 0);
    assert_eq!(request.response_times.len(), 6);
    assert_eq!(request.min_response_time, 1);
    assert_eq!(request.max_response_time, 987654321);
    assert_eq!(request.total_response_time, 987657045);
    assert_eq!(request.response_time_counter, 8);
}
