use receiver_mock::decode::{
    carbon2_metric_name, graphite_metric_name, handle_carbon2, handle_graphite, handle_prometheus,
    prometheus_metric_name,
};
use receiver_mock::labels::Labels;
use receiver_mock::metrics::MetricsHandleResult;
use receiver_mock::options::{Options, Print};
use receiver_mock::prometheus::{
    lines_to_samples, sample_from_parsed, samples_from_parsed, ParsedSample, ParsedValue,
};
use receiver_mock::sample::{filter_samples, Sample, SampleSet};
use receiver_mock::state::AppState;
use receiver_mock::strmap::StrMap;
use receiver_mock::text::lines_of;
use std::collections::HashMap;

fn counts(map: &StrMap<u64>) -> HashMap<String, u64> {
    let mut out = HashMap::new();
    for i in 0..map.len() {
        out.insert(map.key_at(i).clone(), *map.value_at(i));
    }
    out
}

fn labels_from(pairs: &[(&str, &str)]) -> Labels {
    let mut labels = Labels::new();
    for (key, value) in pairs {
        labels.set(key.to_string(), value.to_string());
    }
    labels
}

fn print_nothing() -> Print {
    Print {
        logs: false,
        headers: false,
        metrics: false,
        spans: false,
    }
}

fn options(store_metrics: bool) -> Options {
    Options {
        print: print_nothing(),
        delay_time: std::time::Duration::from_secs(0),
        drop_rate: 0,
        store_traces: false,
        store_metrics,
        store_logs: true,
    }
}

fn expected_metrics_list() -> HashMap<String, u64> {
    let mut metrics_list: HashMap<String, u64> = HashMap::new();
    metrics_list.insert(String::from("mem_available_percent"), 1);
    metrics_list.insert(String::from("mem_free"), 1);
    metrics_list.insert(String::from("mem_total"), 1);
    metrics_list.insert(String::from("mem_used"), 1);
    metrics_list.insert(String::from("mem_used_percent"), 1);
    metrics_list.insert(String::from("mem_active"), 1);
    metrics_list.insert(String::from("mem_inactive"), 1);
    metrics_list.insert(String::from("mem_wired"), 1);
    metrics_list.insert(String::from("mem_available"), 1);
    metrics_list
}

#[test]
fn mod_test_carbon_basic() {
    let lines = lines_of(
        "metric=mem_available_percent host=myhostname  50.430792570114136 1601906858
metric=mem_free host=myhostname  12677414912 1601906858
metric=mem_total host=myhostname  68719476736 1601906858
metric=mem_used host=myhostname  34063699968 1601906858
metric=mem_used_percent host=myhostname  49.569207429885864 1601906858
metric=mem_active host=myhostname  25058705408 1601906858
metric=mem_inactive host=myhostname  21978361856 1601906858
metric=mem_wired host=myhostname  5661790208 1601906858
metric=mem_available host=myhostname  34655776768 1601906858",
    );

    let ip_address = "1.2.3.4";
    let result = handle_carbon2(&lines, ip_address, print_nothing());

    assert_eq!(result.metrics_count, 9);

    assert_eq!(counts(&result.metrics_list), expected_metrics_list());

    assert_eq!(result.metrics_ip_list.contains_key(ip_address), true);
    assert_eq!(*result.metrics_ip_list.get(ip_address).unwrap(), 9);
}

#[test]
fn mod_test_prometheus_basic() {
    let lines = lines_of(
        r##"mem_available_percent{host="myhostname"} 49.59816932678223
mem_active{host="myhostname"} 2.56055296e+10
mem_inactive{host="myhostname"} 2.2181629952e+10
mem_wired{host="myhostname"} 5.678206976e+09
mem_total{host="myhostname"} 6.8719476736e+10
mem_available{host="myhostname"} 3.4083602432e+10
mem_used{host="myhostname"} 3.4635874304e+10
mem_used_percent{host="myhostname"} 50.40183067321777
mem_free{host="myhostname"} 1.190197248e+10"##,
    );

    let ip_address = "1.2.3.4";
    let opts = options(false);
    let result = handle_prometheus(&lines, ip_address, &opts);

    assert_eq!(result.metrics_count, 9);

    assert_eq!(counts(&result.metrics_list), expected_metrics_list());

    assert_eq!(result.metrics_ip_list.contains_key(ip_address), true);
    assert_eq!(*result.metrics_ip_list.get(ip_address).unwrap(), 9);
}

#[test]
fn mod_test_graphite_basic() {
    let lines = lines_of(
        "myhostname.mem.available 33310904320 1601909210
myhostname.mem.used_percent 51.526254415512085 1601909210
myhostname.mem.available_percent 48.473745584487915 1601909210
myhostname.mem.active 26373685248 1601909210
myhostname.mem.total 68719476736 1601909210
myhostname.mem.used 35408572416 1601909210
myhostname.mem.inactive 22692282368 1601909210
myhostname.mem.free 10618621952 1601909210
myhostname.mem.wired 5680394240 1601909210",
    );

    let ip_address = "1.2.3.4";
    let result = handle_graphite(&lines, ip_address, print_nothing());

    assert_eq!(result.metrics_count, 9);

    assert_eq!(counts(&result.metrics_list), expected_metrics_list());

    assert_eq!(result.metrics_ip_list.contains_key(ip_address), true);
    assert_eq!(*result.metrics_ip_list.get(ip_address).unwrap(), 9);
}

#[test]
fn carbon2_name_is_the_value_of_the_metric_tag() {
    assert_eq!(
        carbon2_metric_name("host=a metric=cpu unit=B  meta=1 12 1601906858"),
        Some("cpu".to_string())
    );
    assert_eq!(carbon2_metric_name("metric=a=b  1 2"), Some("a".to_string()));
    assert_eq!(carbon2_metric_name("metric=  1 2"), Some("".to_string()));
    assert_eq!(carbon2_metric_name("host=a  metric=cpu 1 2"), None);
    assert_eq!(carbon2_metric_name("metric host=a  1 2"), None);
    assert_eq!(carbon2_metric_name(""), None);
    assert_eq!(
        carbon2_metric_name("metric=first metric=second"),
        Some("first".to_string())
    );
}

#[test]
fn carbon2_counts_every_line_for_the_address() {
    let lines = lines_of("host=a  1 2\nmetric=cpu  1 2\nmetric=cpu  3 4");
    let result = handle_carbon2(&lines, "10.0.0.1", print_nothing());
    assert_eq!(result.metrics_count, 2);
    assert_eq!(*result.metrics_list.get("cpu").unwrap(), 2);
    assert_eq!(result.metrics_list.len(), 1);
    assert_eq!(*result.metrics_ip_list.get("10.0.0.1").unwrap(), 3);
}

#[test]
fn graphite_name_joins_the_second_and_third_part() {
    assert_eq!(
        graphite_metric_name("host.mem.free 1 2"),
        Some("mem_free".to_string())
    );
    assert_eq!(graphite_metric_name("host.mem 1 2"), None);
    assert_eq!(graphite_metric_name("a.b.c.d 1 2"), None);
    assert_eq!(graphite_metric_name("a.b.c 1"), None);
    assert_eq!(graphite_metric_name("a.b.c 1 2 3"), None);
    assert_eq!(graphite_metric_name("a.b.c  1 2"), None);
    assert_eq!(graphite_metric_name(".. 1 2"), Some("_".to_string()));
}

#[test]
fn graphite_passes_over_lines_of_the_wrong_shape() {
    let lines = lines_of("host.mem.free 1 2\nbroken\nhost.mem.used 3 4");
    let result = handle_graphite(&lines, "10.0.0.1", print_nothing());
    assert_eq!(result.metrics_count, 2);
    assert_eq!(*result.metrics_ip_list.get("10.0.0.1").unwrap(), 2);
    assert_eq!(*result.metrics_list.get("mem_free").unwrap(), 1);
    assert_eq!(*result.metrics_list.get("mem_used").unwrap(), 1);
}

#[test]
fn graphite_without_a_good_line_counts_no_address() {
    let lines = lines_of("broken");
    let result = handle_graphite(&lines, "10.0.0.1", print_nothing());
    assert_eq!(result.metrics_count, 0);
    assert_eq!(result.metrics_ip_list.len(), 0);
    assert_eq!(result.metrics_list.len(), 0);
}

#[test]
fn prometheus_name_ends_at_the_brace() {
    assert_eq!(
        prometheus_metric_name("up{job=\"a\"} 1"),
        Some("up".to_string())
    );
    assert_eq!(prometheus_metric_name("up 1"), Some("up 1".to_string()));
    assert_eq!(prometheus_metric_name("# HELP up"), None);
    assert_eq!(prometheus_metric_name(""), Some("".to_string()));
}

#[test]
fn prometheus_skips_comments() {
    let lines = lines_of("# TYPE up gauge\nup{job=\"a\"} 1\n# done\nup{job=\"b\"} 0");
    let result = handle_prometheus(&lines, "10.0.0.1", &options(false));
    assert_eq!(result.metrics_count, 2);
    assert_eq!(*result.metrics_list.get("up").unwrap(), 2);
    assert_eq!(*result.metrics_ip_list.get("10.0.0.1").unwrap(), 2);
    assert_eq!(result.metrics_samples.len(), 0);
}

#[test]
fn prometheus_stores_samples_when_asked() {
    let lines = lines_of(
        "apiserver_request_total{code=\"200\",job=\"apiserver\"} 123.12 1638873379541\nup 1 1638873379542",
    );
    let result = handle_prometheus(&lines, "10.0.0.1", &options(true));
    assert_eq!(result.metrics_samples.len(), 2);
    let first = result.metrics_samples.get(0);
    assert_eq!(first.metric, "apiserver_request_total");
    assert_eq!(f64::from_bits(first.value_bits), 123.12);
    assert_eq!(first.timestamp, 1638873379541);
    assert_eq!(first.labels.len(), 2);
    assert_eq!(first.labels.get_text("code"), Some("200"));
    assert_eq!(first.labels.get_text("job"), Some("apiserver"));
    let second = result.metrics_samples.get(1);
    assert_eq!(second.metric, "up");
    assert_eq!(f64::from_bits(second.value_bits), 1.0);
    assert_eq!(second.labels.len(), 0);
}

#[test]
fn lines_to_samples_keeps_the_first_sample_of_a_series() {
    let samples = lines_to_samples(vec![
        "up{job=\"a\"} 1 1000".to_string(),
        "up{job=\"a\"} 2 2000".to_string(),
        "up{job=\"b\"} 3 3000".to_string(),
    ]);
    assert_eq!(samples.len(), 2);
    assert_eq!(f64::from_bits(samples.get(0).value_bits), 1.0);
    assert_eq!(samples.get(0).timestamp, 1000);
    assert_eq!(samples.get(1).labels.get_text("job"), Some("b"));
}

#[test]
fn parsed_histograms_and_summaries_store_zero() {
    let parsed = vec![
        ParsedSample {
            metric: "h".to_string(),
            labels: vec![("a".to_string(), "1".to_string())],
            value: ParsedValue::Histogram,
            timestamp_millis: 5,
        },
        ParsedSample {
            metric: "s".to_string(),
            labels: vec![],
            value: ParsedValue::Summary,
            timestamp_millis: 6,
        },
        ParsedSample {
            metric: "c".to_string(),
            labels: vec![],
            value: ParsedValue::Counter(2.5f64.to_bits()),
            timestamp_millis: 7,
        },
        ParsedSample {
            metric: "g".to_string(),
            labels: vec![],
            value: ParsedValue::Gauge(3.5f64.to_bits()),
            timestamp_millis: 8,
        },
    ];
    let samples = samples_from_parsed(&parsed);
    assert_eq!(samples.len(), 4);
    assert_eq!(f64::from_bits(samples.get(0).value_bits), 0.0);
    assert_eq!(samples.get(0).timestamp, 5);
    assert_eq!(samples.get(0).labels.get_text("a"), Some("1"));
    assert_eq!(f64::from_bits(samples.get(1).value_bits), 0.0);
    assert_eq!(f64::from_bits(samples.get(2).value_bits), 2.5);
    assert_eq!(f64::from_bits(samples.get(3).value_bits), 3.5);
    let one = sample_from_parsed(&ParsedSample {
        metric: "u".to_string(),
        labels: vec![
            ("k".to_string(), "old".to_string()),
            ("k".to_string(), "new".to_string()),
        ],
        value: ParsedValue::Untyped(1.5f64.to_bits()),
        timestamp_millis: -1,
    });
    assert_eq!(one.labels.len(), 1);
    assert_eq!(one.labels.get_text("k"), Some("new"));
    assert_eq!(one.timestamp, u64::MAX);
    assert_eq!(f64::from_bits(one.value_bits), 1.5);
}

fn sample(metric: &str, labels: &[(&str, &str)], value: f64, timestamp: u64) -> Sample {
    Sample {
        metric: metric.to_string(),
        value_bits: value.to_bits(),
        labels: labels_from(labels),
        timestamp,
    }
}

#[test]
fn replace_keeps_one_sample_for_each_series() {
    let mut set = SampleSet::new();
    set.replace(sample("up", &[("job", "a"), ("zone", "x")], 1.0, 10));
    set.replace(sample("up", &[("job", "b")], 2.0, 20));
    set.replace(sample("up", &[("zone", "x"), ("job", "a")], 3.0, 30));
    set.replace(sample("down", &[("job", "a"), ("zone", "x")], 4.0, 40));
    assert_eq!(set.len(), 3);
    assert_eq!(f64::from_bits(set.get(0).value_bits), 3.0);
    assert_eq!(set.get(0).timestamp, 30);
    assert_eq!(f64::from_bits(set.get(1).value_bits), 2.0);
    assert_eq!(set.get(2).metric, "down");
    for i in 0..set.len() {
        for j in 0..set.len() {
            assert_eq!(set.get(i).same_series(set.get(j)), i == j);
        }
    }
}

#[test]
fn insert_leaves_a_stored_series_alone() {
    let mut set = SampleSet::new();
    assert!(set.insert(sample("up", &[("job", "a")], 1.0, 10)));
    assert!(!set.insert(sample("up", &[("job", "a")], 2.0, 20)));
    assert_eq!(set.len(), 1);
    assert_eq!(f64::from_bits(set.get(0).value_bits), 1.0);
}

#[test]
fn filter_with_the_empty_query_gives_every_sample() {
    let mut set = SampleSet::new();
    set.replace(sample("up", &[("job", "a")], 1.0, 10));
    set.replace(sample("up", &[("job", "b")], 2.0, 20));
    set.replace(sample("down", &[], 3.0, 30));
    let all = filter_samples(&set, &Labels::new());
    assert_eq!(all.len(), 3);
    for i in 0..3 {
        assert!(all.get(i).same_series(set.get(i)));
        assert_eq!(all.get(i).value_bits, set.get(i).value_bits);
        assert_eq!(all.get(i).timestamp, set.get(i).timestamp);
    }
}

#[test]
fn filter_matches_labels_exactly() {
    let mut set = SampleSet::new();
    set.replace(sample("up", &[("job", "a"), ("zone", "x")], 1.0, 10));
    set.replace(sample("up", &[("job", "b")], 2.0, 20));
    set.replace(sample("down", &[("job", "a.*")], 3.0, 30));
    assert_eq!(filter_samples(&set, &labels_from(&[("job", "a")])).len(), 1);
    // no pattern matching: the wanted text is held against the value as it is
    let found = filter_samples(&set, &labels_from(&[("job", "a.*")]));
    assert_eq!(found.len(), 1);
    assert_eq!(found.get(0).metric, "down");
    assert_eq!(filter_samples(&set, &labels_from(&[("job", "")])).len(), 3);
    assert_eq!(filter_samples(&set, &labels_from(&[("zone", "")])).len(), 1);
    assert_eq!(filter_samples(&set, &labels_from(&[("__name__", "up")])).len(), 2);
    assert_eq!(filter_samples(&set, &labels_from(&[("__name__", "")])).len(), 3);
    assert_eq!(
        filter_samples(&set, &labels_from(&[("__name__", "up"), ("job", "b")])).len(),
        1
    );
    assert_eq!(filter_samples(&set, &labels_from(&[("missing", "")])).len(), 0);
}

#[test]
fn handle_metric_and_handle_ip_count_by_one() {
    let mut result = MetricsHandleResult::new();
    result.handle_metric("a".to_string());
    result.handle_metric("b".to_string());
    result.handle_metric("a".to_string());
    result.handle_ip("1.2.3.4");
    assert_eq!(result.metrics_count, 3);
    assert_eq!(*result.metrics_list.get("a").unwrap(), 2);
    assert_eq!(*result.metrics_list.get("b").unwrap(), 1);
    assert_eq!(*result.metrics_ip_list.get("1.2.3.4").unwrap(), 1);
}

fn sum(map: &StrMap<u64>) -> u64 {
    (0..map.len()).map(|i| *map.value_at(i)).sum()
}

#[test]
fn count_of_metrics_is_the_sum_of_the_counts_by_name_and_by_address() {
    let mut state = AppState::new();
    let opts = options(true);
    let first = handle_graphite(&lines_of("h.mem.free 1 2\nh.mem.used 1 2"), "1.1.1.1", print_nothing());
    state.add_metrics_result(first, &opts);
    let second = handle_prometheus(&lines_of("up 1\n# note\nmem_free{a=\"b\"} 2"), "2.2.2.2", &opts);
    state.add_metrics_result(second, &opts);
    let third = handle_carbon2(&lines_of("metric=mem_free  1 2"), "1.1.1.1", print_nothing());
    state.add_metrics_result(third, &opts);
    assert_eq!(state.metrics, 5);
    assert_eq!(sum(&state.metrics_list), 5);
    assert_eq!(sum(&state.metrics_ip_list), 5);
    assert_eq!(*state.metrics_list.get("mem_free").unwrap(), 3);
    assert_eq!(*state.metrics_ip_list.get("1.1.1.1").unwrap(), 3);
    // a Carbon 2.0 line without a metric counts for the address alone
    let fourth = handle_carbon2(&lines_of("host=a  1 2"), "1.1.1.1", print_nothing());
    state.add_metrics_result(fourth, &opts);
    assert_eq!(state.metrics, 5);
    assert_eq!(sum(&state.metrics_list), 5);
    assert_eq!(sum(&state.metrics_ip_list), 6);
}

#[test]
fn same_line_twice_counts_twice_and_is_stored_once() {
    let mut state = AppState::new();
    let opts = options(true);
    let line = "apiserver_request_total{code=\"200\",job=\"apiserver\"} 123.12 1638873379541";
    state.add_metrics_result(handle_prometheus(&lines_of(line), "1.1.1.1", &opts), &opts);
    assert_eq!(state.metrics, 1);
    assert_eq!(state.metrics_samples.len(), 1);
    state.add_metrics_result(handle_prometheus(&lines_of(line), "1.1.1.1", &opts), &opts);
    assert_eq!(state.metrics, 2);
    assert_eq!(state.metrics_samples.len(), 1);
}

#[test]
fn reset_forgets_the_metrics() {
    let mut state = AppState::new();
    let opts = options(true);
    state.add_metrics_result(handle_prometheus(&lines_of("up 1 5"), "1.1.1.1", &opts), &opts);
    state.reset_metrics();
    assert_eq!(state.metrics, 0);
    assert_eq!(state.metrics_list.len(), 0);
    assert_eq!(state.metrics_ip_list.len(), 0);
    assert_eq!(state.metrics_samples.len(), 0);
}

#[test]
fn metrics_that_would_overflow_do_not_fit() {
    let mut state = AppState::new();
    let mut big = MetricsHandleResult::new();
    big.metrics_list.add_count("a", u64::MAX);
    big.metrics_count = u64::MAX;
    assert!(state.metrics_fit(&big));
    state.add_metrics_result(big, &options(false));
    let mut one = MetricsHandleResult::new();
    one.handle_metric("a".to_string());
    assert!(!state.metrics_fit(&one));
    assert!(state.metrics_fit(&MetricsHandleResult::new()));
}
