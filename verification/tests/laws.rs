use goose_metrics::attack::GooseAttack;
use goose_metrics::codes::prepare_status_codes;
use goose_metrics::counts::{sum_of_tallies, tally_list};
use goose_metrics::goose::{GooseConfiguration, GooseMethod, GooseTask, GooseTaskSet};
use goose_metrics::metrics::{GooseMetric, GooseMetrics};
use goose_metrics::name_map::NameMap;
use goose_metrics::request::{GooseRequestAggregateMetric, GooseRequestMetric};
use goose_metrics::sorted_map::SortedMap;
use goose_metrics::task::{GooseTaskAggregateMetric, GooseTaskMetric};
use goose_metrics::times::{merge_times, update_max_time, update_min_time, value_at_rank};
use goose_metrics::timing::{sum_of_times, TimeSummary};
use std::collections::{BTreeMap, HashMap};

fn times(entries: &[(usize, usize)]) -> BTreeMap<usize, usize> {
    entries.iter().cloned().collect()
}

fn timed(response_times: &[u64]) -> GooseRequestAggregateMetric {
    let mut aggregate = GooseRequestAggregateMetric::new("/", GooseMethod::Get, 0);
    for time in response_times {
        aggregate.set_response_time(*time);
    }
    aggregate
}

fn bucket(response_time: u64) -> usize {
    *timed(&[response_time]).response_times.keys().next().unwrap()
}

fn task_run(runs: &[(u64, bool)]) -> GooseTaskAggregateMetric {
    let mut aggregate = GooseTaskAggregateMetric::new(0, "set", 0, "task");
    for (time, success) in runs {
        aggregate.set_time(*time, *success);
    }
    aggregate
}

fn attack() -> GooseAttack {
    GooseAttack {
        metrics: GooseMetrics::default(),
        configuration: GooseConfiguration {
            no_metrics: false,
            no_task_metrics: false,
            no_error_summary: false,
            status_codes: true,
            requests_format: "csv".to_string(),
        },
    }
}

fn request(name: &str, time: u64, status_code: u16) -> GooseRequestMetric {
    let mut raw_request = GooseRequestMetric::new(GooseMethod::Get, name, "", 0, 0);
    raw_request.response_time = time;
    raw_request.status_code = status_code;
    raw_request.success = status_code == 200;
    raw_request
}

#[test]
fn three_sets_of_times_merge_in_any_order() {
    let (a, b, c) = (times(&[(1, 1), (2, 2)]), times(&[(2, 5)]), times(&[(1, 7), (9, 9)]));
    let left = merge_times(merge_times(a.clone(), b.clone()), c.clone());
    let right = merge_times(a.clone(), merge_times(b.clone(), c.clone()));
    assert_eq!(left, right);
    assert_eq!(left, times(&[(1, 8), (2, 7), (9, 9)]));
    assert_eq!(left.values().sum::<usize>(), 24);
}

#[test]
fn extremes_do_not_depend_on_order() {
    for (a, b) in vec![(0, 0), (0, 4), (4, 0), (4, 9), (9, 4)] {
        assert_eq!(update_max_time(a, b), update_max_time(b, a));
        assert_eq!(update_min_time(a, b), update_min_time(b, a));
    }
    assert_eq!(update_min_time(0, 0), 0);
    assert_eq!(update_min_time(0, 4), 4);
    assert_eq!(update_max_time(0, 4), 4);
}

#[test]
fn longer_times_are_not_counted_as_shorter_ones() {
    let mut last = 0;
    for time in 0..3000 {
        let next = bucket(time);
        assert!(last <= next);
        assert_eq!(bucket(next as u64), next);
        last = next;
    }
    assert_eq!(bucket(u64::MAX), usize::MAX);
}

#[test]
fn response_times_are_tracked_in_any_order() {
    let aggregate = timed(&[155, 2345, 7]);
    assert_eq!(aggregate, timed(&[7, 155, 2345]));
    assert_eq!(aggregate.response_time_counter, 3);
    assert_eq!(aggregate.total_response_time, 2507);
    assert_eq!((aggregate.min_response_time, aggregate.max_response_time), (7, 2345));
    assert_eq!(timed(&[5, 0, 0, 7]), timed(&[0, 7, 0, 5]));
    assert_eq!(timed(&[5, 0]).min_response_time, 0);
}

#[test]
fn runs_are_tracked_in_any_order() {
    let aggregate = task_run(&[(155, true), (7, false)]);
    assert_eq!(aggregate, task_run(&[(7, false), (155, true)]));
    assert_eq!(task_run(&[(0, true), (5, false)]), task_run(&[(5, false), (0, true)]));
    assert_eq!((aggregate.success_count, aggregate.fail_count), (1, 1));
    assert_eq!((aggregate.taskset_index, aggregate.task_index), (0, 0));
    assert_eq!((aggregate.taskset_name.as_str(), aggregate.task_name.as_str()), ("set", "task"));
    assert_eq!(aggregate.times.values().sum::<usize>(), 2);
    assert_eq!(aggregate.counter, aggregate.success_count + aggregate.fail_count);
}

#[test]
fn short_times_fill_146_counters() {
    let all: Vec<u64> = (0..1000).chain(0..1000).collect();
    assert_eq!(timed(&all).response_times.len(), 146);
    let runs: Vec<(u64, bool)> = (0..=1000).map(|time| (time, true)).collect();
    assert_eq!(task_run(&runs).times.len(), 146);
}

#[test]
fn longer_runs_are_not_counted_as_shorter_ones() {
    let mut last = 0;
    for time in 0..3000 {
        let next = *task_run(&[(time, true)]).times.keys().next().unwrap();
        assert!(last <= next);
        last = next;
    }
}

#[test]
fn merged_counters_are_those_of_all_times() {
    let (xs, ys) = (vec![4, 155, 155, 2345], vec![155, 7]);
    let both: Vec<u64> = xs.iter().chain(ys.iter()).cloned().collect();
    assert_eq!(
        merge_times(timed(&xs).response_times, timed(&ys).response_times),
        timed(&both).response_times
    );
}

#[test]
fn codes_stay_within_requests_when_the_option_changes() {
    let mut attack = attack();
    attack.configuration.status_codes = false;
    attack.record_request(&request("/", 4, 200));
    attack.configuration.status_codes = true;
    attack.record_request(&request("/", 4, 200));
    let front = attack.metrics.requests.get("GET /").unwrap();
    assert_eq!(front.status_code_counts[&200], 1);
    assert_eq!(front.response_time_counter, 2);
    assert_eq!(front.success_count + front.fail_count, 2);
    assert_eq!(front.response_times.values().sum::<usize>(), 2);
    assert_eq!((front.method, front.path.as_str()), (GooseMethod::Get, "/"));
}

#[test]
fn codes_merge_in_any_order() {
    let a: HashMap<u16, usize> = vec![(200, 1), (404, 2)].into_iter().collect();
    let b: HashMap<u16, usize> = vec![(200, 4)].into_iter().collect();
    let mut ab = a.clone();
    prepare_status_codes(&b, &mut Some(&mut ab));
    let mut ba = b.clone();
    prepare_status_codes(&a, &mut Some(&mut ba));
    assert_eq!(ab, ba);
    assert_eq!(ab[&200], 5);
    prepare_status_codes(&HashMap::new(), &mut Some(&mut ab));
    assert_eq!(ab, ba);
}

#[test]
fn summaries_merge_in_any_order() {
    let summary = |time: usize| TimeSummary {
        times: times(&[(time, 1)]),
        total: time,
        counter: 1,
        min: time,
        max: time,
    };
    let forward = sum_of_times(&vec![summary(3), summary(8), summary(5)]);
    let backward = sum_of_times(&vec![summary(5), summary(8), summary(3)]);
    assert_eq!(forward, backward);
}

#[test]
fn tallies_of_parts_add_up() {
    let all = sum_of_tallies(&tally_list(&vec![(1, 2), (3, 4), (5, 6)]).unwrap());
    let first = sum_of_tallies(&tally_list(&vec![(1, 2)]).unwrap());
    let rest = sum_of_tallies(&tally_list(&vec![(3, 4), (5, 6)]).unwrap());
    assert_eq!(all.total, first.total + rest.total);
    assert_eq!(all.fail, first.fail + rest.fail);
}

#[test]
fn every_request_is_counted_once() {
    let mut attack = attack();
    for i in 0..50 {
        attack.record_request(&request("/", i * 31, if i % 3 == 0 { 503 } else { 200 }));
    }
    let front = attack.metrics.requests.get("GET /").unwrap();
    assert_eq!(front.response_time_counter, 50);
    assert_eq!(front.success_count + front.fail_count, 50);
    assert_eq!(front.response_times.values().sum::<usize>(), 50);
    assert_eq!(front.status_code_counts.values().sum::<usize>(), 50);
    assert!(front.min_response_time <= front.max_response_time);
    assert!(front.max_response_time <= front.total_response_time);
    for rank in 0..51 {
        let time = value_at_rank(
            &front.response_times,
            rank,
            front.min_response_time,
            front.max_response_time,
        );
        assert!(front.min_response_time <= time && time <= front.max_response_time);
    }
}

#[test]
fn other_requests_and_tasks_stay_unchanged() {
    let mut attack = attack();
    let sets = vec![GooseTaskSet {
        task_sets_index: 0,
        name: "set".to_string(),
        tasks: vec![
            GooseTask { tasks_index: 0, name: "a".to_string() },
            GooseTask { tasks_index: 1, name: "b".to_string() },
        ],
    }];
    attack.metrics.initialize_task_metrics(&sets, &attack.configuration);
    attack.record_request(&request("/", 4, 200));
    let before = attack.metrics.clone();
    attack.record_request(&request("/other", 4, 200));
    let mut raw_task = GooseTaskMetric::new(0, 0, 1, String::new(), 0);
    raw_task.set_time(3, true);
    attack.record_metric(&GooseMetric::Task(raw_task));
    assert_eq!(attack.metrics.requests.get("GET /"), before.requests.get("GET /"));
    assert_eq!(attack.metrics.tasks[0][0], before.tasks[0][0]);
    assert_ne!(attack.metrics.tasks[0][1], before.tasks[0][1]);
    assert!(attack.metrics.errors.is_empty());
    assert_eq!(attack.metrics.duration, before.duration);
}

#[test]
fn names_are_listed_in_order_however_they_came() {
    let names = vec!["POST /b", "GET /z", "GET /a", "POST /a"];
    let mut forward: NameMap<usize> = NameMap::new();
    let mut backward: NameMap<usize> = NameMap::new();
    for name in names.iter() {
        forward.insert(name.to_string(), name.len());
    }
    for name in names.iter().rev() {
        backward.insert(name.to_string(), name.len());
    }
    let sorted = vec!["GET /a", "GET /z", "POST /a", "POST /b"];
    assert_eq!(forward.sorted_names(), sorted);
    assert_eq!(backward.sorted_names(), sorted);
    assert_eq!(forward.names().len(), 4);
}

#[test]
fn maps_give_back_what_was_put_in() {
    let mut map: NameMap<usize> = NameMap::new();
    assert!(map.is_empty());
    map.insert("a".to_string(), 1);
    map.insert("b".to_string(), 2);
    map.insert("a".to_string(), 3);
    assert_eq!(map.get("a"), Some(&3));
    assert_eq!(map.get("c"), None);
    let copy = map.clone();
    assert_eq!(map.remove("a"), Some(3));
    assert_eq!(map.remove("a"), None);
    assert_eq!(map.names(), vec!["b"]);
    assert!(!map.is_empty());
    assert_eq!(copy.get("a"), Some(&3));
}

#[test]
fn sorted_maps_keep_their_keys_in_order() {
    let mut map: SortedMap<usize> = SortedMap::new();
    assert!(map.is_empty());
    for key in vec!["m", "z", "a", "m", "ä"] {
        map.insert(key.to_string(), key.len());
    }
    assert_eq!(map.keys(), vec!["a", "m", "z", "ä"]);
    assert_eq!(map.get("ä"), Some(&2));
    let copy = map.clone();
    assert_eq!(map.remove("m"), Some(1));
    assert_eq!(map.remove("x"), None);
    assert_eq!(map.keys(), vec!["a", "z", "ä"]);
    assert_eq!(copy.keys(), vec!["a", "m", "z", "ä"]);
}
