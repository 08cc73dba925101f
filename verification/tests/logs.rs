use receiver_mock::labels::Labels;
use receiver_mock::logs::{
    get_timestamp_from_body, LogRepository, LogStats, LogStatsRepository,
};
use receiver_mock::metadata::Metadata;
use receiver_mock::options::{Options, Print};
use receiver_mock::state::AppState;
use receiver_mock::regex::{RegexCache, RegexError};
use std::sync::Arc;

fn metadata_from(pairs: Vec<(&str, &str)>) -> Metadata {
    let mut metadata = Metadata::new();
    for (key, value) in pairs {
        metadata.set(key.to_string(), value.to_string());
    }
    metadata
}

fn query_from(pairs: Vec<(&str, &str)>) -> Labels {
    metadata_from(pairs)
}

#[test]
fn test_stats_repo_update() {
    let ipaddr = "1.2.3.4";
    let message_count = 5;
    let byte_count = 50;
    let mut repository = LogStatsRepository::new();

    repository.update(message_count, byte_count, ipaddr);

    assert_eq!(repository.total.message_count, message_count);
    assert_eq!(repository.total.byte_count, byte_count);

    assert_eq!(repository.ipaddr.get(ipaddr).unwrap().message_count, message_count);
    assert_eq!(repository.ipaddr.get(ipaddr).unwrap().byte_count, byte_count);

    // check if we get zeroes for an unknown ip address
    let other_ipaddr = "1.1.1.1";
    assert_eq!(
        repository.get_stats_for_ipaddr(other_ipaddr),
        LogStats {
            message_count: 0,
            byte_count: 0
        }
    )
}

#[test]
fn stats_add_up_by_address() {
    let mut repository = LogStatsRepository::new();
    repository.update(1, 10, "1.2.3.4");
    repository.update(2, 20, "5.6.7.8");
    repository.update(3, 30, "1.2.3.4");
    assert_eq!(repository.total, LogStats { message_count: 6, byte_count: 60 });
    assert_eq!(
        repository.get_stats_for_ipaddr("1.2.3.4"),
        LogStats { message_count: 4, byte_count: 40 }
    );
    assert_eq!(
        repository.get_stats_for_ipaddr("5.6.7.8"),
        LogStats { message_count: 2, byte_count: 20 }
    );
}

#[test]
fn mod_test_repo_add_message_valid() {
    let mut repository = LogRepository::new();
    let body = r#"{"log": "Log message", "timestamp": 1}"#;

    repository.add_log_message(body.to_string(), Metadata::new());

    assert_eq!(repository.timestamp_count(), 1);
}

#[test]
fn test_repo_add_message_no_ts() {
    let mut repository = LogRepository::new();
    let body_without_ts = r#"{"log": "Log message"}"#;

    repository.add_log_message(body_without_ts.to_string(), Metadata::new());

    assert_eq!(repository.timestamp_count(), 1);
}

#[test]
fn mod_test_repo_range_query() {
    let timestamps = [1, 5, 8];
    let raw_logs = timestamps
        .iter()
        .map(|ts| format!("{{\"log\": \"Log message\", \"timestamp\": {}}}", ts))
        .map(|body| (body, Metadata::new()))
        .collect();
    let mut repository = LogRepository::from_raw_logs(&raw_logs);

    assert_eq!(repository.get_message_count(1, 6, &Labels::new()).unwrap(), 2);
    assert_eq!(repository.get_message_count(0, 10, &Labels::new()).unwrap(), 3);
    assert_eq!(repository.get_message_count(2, 3, &Labels::new()).unwrap(), 0);
}

#[test]
fn test_repo_metadata_query() {
    let metadata = [
        Metadata::new(),
        metadata_from(vec![("key", "value")]),
        metadata_from(vec![("key", "valueprime"), ("key2", "value2")]),
    ];
    let body = "{\"log\": \"Log message\", \"timestamp\": 1}";
    let raw_logs = metadata
        .iter()
        .map(|mt| (body.to_string(), mt.duplicate()))
        .collect();
    let mut repository = LogRepository::from_raw_logs(&raw_logs);

    assert_eq!(
        repository
            .get_message_count(0, 100, &query_from(vec![("key", "value")]))
            .unwrap(),
        1
    );
    assert_eq!(
        repository
            .get_message_count(0, 100, &query_from(vec![("key", "")]))
            .unwrap(),
        2
    );
    assert_eq!(
        repository
            .get_message_count(
                0,
                100,
                &query_from(vec![("key", "valueprime"), ("key2", "value2")])
            )
            .unwrap(),
        1
    );
}

#[test]
fn test_repo_metadata_query_regex() {
    let metadata = [
        metadata_from(vec![("key", "value")]),
        metadata_from(vec![("key", "valueSUFFIX")]),
        metadata_from(vec![("key", "PREFIXvalue")]),
        metadata_from(vec![("key", "PREFIXvalueSUFFIX")]),
        metadata_from(vec![("key", "undefined")]),
        metadata_from(vec![("key", "not undefined")]),
    ];
    let body = "{\"log\": \"Log message\", \"timestamp\": 1}";
    let raw_logs = metadata
        .iter()
        .map(|mt| (body.to_string(), mt.duplicate()))
        .collect();
    let mut repository = LogRepository::from_raw_logs(&raw_logs);

    // Check backward compatibility (match only exact matches)
    assert_eq!(
        repository
            .get_message_count(0, 100, &query_from(vec![("key", "value")]))
            .unwrap(),
        1
    );

    // Check backward compatibility (empty matches all)
    assert_eq!(
        repository
            .get_message_count(0, 100, &query_from(vec![("key", "")]))
            .unwrap(),
        6
    );

    assert_eq!(
        repository
            .get_message_count(0, 100, &query_from(vec![("key", "value.*")]))
            .unwrap(),
        2
    );

    assert_eq!(
        repository
            .get_message_count(0, 100, &query_from(vec![("key", ".*value.*")]))
            .unwrap(),
        4
    );

    assert_eq!(
        repository
            .get_message_count(0, 100, &query_from(vec![("key", "(?!undefined$).*")]))
            .unwrap(),
        5
    );
}

#[test]
fn test_repo_metadata_regex_cache() {
    let metadata = [metadata_from(vec![
        ("key", "value1"),
        ("key2", "value2"),
        ("key3", "thirdvalue"),
    ])];
    let body = "{\"log\": \"Log message\", \"timestamp\": 1}";
    let raw_logs = metadata
        .iter()
        .map(|mt| (body.to_string(), mt.duplicate()))
        .collect();
    let mut repository = LogRepository::from_raw_logs(&raw_logs);

    // No query done yet, confirm that cache is empty.
    assert_eq!(repository.regex_cache().len(), 0);

    // Do a query
    assert_eq!(
        repository
            .get_message_count(
                0,
                100,
                &query_from(vec![("key", "value.*"), ("key3", "third.*")])
            )
            .unwrap(),
        1
    );

    // Confirm that cache has increased size
    assert_eq!(repository.regex_cache().len(), 2);

    // Get the regexes.
    let first = repository.regex_cache().cached("value.*").unwrap();
    let third = repository.regex_cache().cached("third.*").unwrap();

    assert_eq!(Arc::strong_count(&first), 2);
    assert_eq!(Arc::strong_count(&third), 2);

    // Do another query
    assert_eq!(
        repository
            .get_message_count(
                0,
                100,
                &query_from(vec![("key", "value.*"), ("key2", "value.*"), ("key3", "third.*")])
            )
            .unwrap(),
        1
    );

    // Confirm that the cache hasn't changed: the size is the same and the same references are used.
    assert_eq!(repository.regex_cache().len(), 2);
    assert_eq!(Arc::strong_count(&first), 2);
    assert_eq!(Arc::strong_count(&third), 2);
}

#[test]
fn mod_test_get_timestamp_from_body() {
    assert_eq!(
        get_timestamp_from_body(r#"{"timestamp": 1234567891011}"#).unwrap(),
        1234567891011
    );
    assert!(get_timestamp_from_body(r#"{"timestamp": -1}"#).is_none());
    assert!(get_timestamp_from_body(r#"{"timestamp": 1.5}"#).is_none());
    assert!(get_timestamp_from_body(r#"{"log": "Some log message"}"#).is_none());
    assert!(get_timestamp_from_body("Not json at all").is_none())
}

#[test]
fn count_over_a_range_is_the_sum_over_its_parts() {
    let timestamps = [1, 5, 5, 8, 13];
    let raw_logs = timestamps
        .iter()
        .map(|ts| format!("{{\"timestamp\": {}}}", ts))
        .map(|body| (body, Metadata::new()))
        .collect();
    let mut repository = LogRepository::from_raw_logs(&raw_logs);
    let none = Labels::new();
    for (a, m, b) in [(0, 5, 20), (1, 6, 13), (5, 5, 5), (2, 9, 14), (0, 0, u64::MAX)] {
        let whole = repository.get_message_count(a, b, &none).unwrap();
        let left = repository.get_message_count(a, m, &none).unwrap();
        let right = repository.get_message_count(m, b, &none).unwrap();
        assert_eq!(whole, left + right);
    }
    assert_eq!(repository.get_message_count(0, u64::MAX, &none).unwrap(), 5);
    assert_eq!(repository.get_message_count(5, 6, &none).unwrap(), 2);
}

#[test]
fn messages_are_kept_in_the_order_of_their_timestamps() {
    let mut repository = LogRepository::new();
    for ts in [8u64, 1, 5, 1] {
        repository.add_at(ts, Metadata::new());
    }
    assert_eq!(repository.len(), 4);
    assert_eq!(repository.timestamp_count(), 3);
    assert_eq!(repository.get_message_count(1, 2, &Labels::new()).unwrap(), 2);
}

#[test]
fn message_without_timestamp_is_filed_under_the_given_time() {
    let mut repository = LogRepository::new();
    repository.add_log_message_at("plain text", Metadata::new(), 42);
    repository.add_log_message_at(r#"{"timestamp": 7}"#, Metadata::new(), 42);
    let none = Labels::new();
    assert_eq!(repository.get_message_count(42, 43, &none).unwrap(), 1);
    assert_eq!(repository.get_message_count(7, 8, &none).unwrap(), 1);
    assert_eq!(repository.get_message_count(0, 100, &none).unwrap(), 2);
}

#[test]
fn invalid_pattern_fails_the_query() {
    let raw_logs = vec![(
        r#"{"timestamp": 1}"#.to_string(),
        metadata_from(vec![("key", "value")]),
    )];
    let mut repository = LogRepository::from_raw_logs(&raw_logs);
    assert_eq!(
        repository.get_message_count(0, 100, &query_from(vec![("key", "(")])),
        Err(RegexError::InvalidPattern)
    );
    assert_eq!(repository.regex_cache().len(), 0);
    // a field that is absent decides before the pattern is looked at
    assert_eq!(
        repository.get_message_count(0, 100, &query_from(vec![("other", "(")])),
        Ok(0)
    );
}

#[test]
fn cache_hands_out_one_expression_for_one_pattern() {
    let mut cache = RegexCache::new();
    assert!(cache.cached("a+").is_none());
    let first = cache.get("a+").unwrap();
    let second = cache.get("a+").unwrap();
    assert_eq!(cache.len(), 1);
    assert!(Arc::ptr_eq(&first, &second));
    assert_eq!(first.as_str(), "^a+$");
    assert!(matches!(cache.get("("), Err(RegexError::InvalidPattern)));
    assert_eq!(cache.len(), 1);
}

#[test]
fn full_match_is_anchored_at_both_ends() {
    let mut cache = RegexCache::new();
    assert_eq!(cache.full_match("val", "value"), Ok(false));
    assert_eq!(cache.full_match("val.*", "value"), Ok(true));
    assert_eq!(cache.full_match("alue", "value"), Ok(false));
    assert_eq!(cache.full_match("[", "value"), Err(RegexError::InvalidPattern));
}

fn options() -> Options {
    Options {
        print: Print {
            logs: false,
            headers: false,
            metrics: false,
            spans: false,
        },
        delay_time: std::time::Duration::from_secs(0),
        drop_rate: 0,
        store_traces: false,
        store_metrics: false,
        store_logs: true,
    }
}

#[test]
fn logs_test_repo_add_message_valid() {
    let ip_address = "1.2.3.4";
    let mut state = AppState::new();
    let old_total = state.log_stats.total;
    let old_stats = state.log_stats.get_stats_for_ipaddr(ip_address);
    let body = r#"{"log": "Log message", "timestamp": 1}"#;

    state.add_log_lines(&vec![body.to_string()], &Metadata::new(), ip_address, &options());

    assert_eq!(state.log_messages.len(), 1);
    assert_eq!(state.log_stats.total.message_count, old_total.message_count + 1);
    assert_eq!(
        state.log_stats.total.byte_count,
        old_total.byte_count + body.len() as u64
    );

    assert_eq!(
        state.log_stats.ipaddr.get(ip_address).unwrap().message_count,
        old_stats.message_count + 1
    );
    assert_eq!(
        state.log_stats.ipaddr.get(ip_address).unwrap().byte_count,
        old_stats.byte_count + body.len() as u64
    );
}

#[test]
fn logs_test_repo_range_query() {
    let ip_address = "1.2.3.4";
    let timestamps = [1, 5, 8];
    let bodies: Vec<String> = timestamps
        .iter()
        .map(|ts| format!("{{\"log\": \"Log message\", \"timestamp\": {}}}", ts))
        .collect();
    let mut state = AppState::new();
    state.add_log_lines(&bodies, &Metadata::new(), ip_address, &options());

    assert_eq!(state.log_stats.total.message_count, 3);
    assert_eq!(state.log_messages.get_message_count(1, 6, &Labels::new()).unwrap(), 2);
    assert_eq!(state.log_messages.get_message_count(0, 10, &Labels::new()).unwrap(), 3);
    assert_eq!(state.log_messages.get_message_count(2, 3, &Labels::new()).unwrap(), 0);
}

#[test]
fn logs_test_get_timestamp_from_body() {
    assert_eq!(
        get_timestamp_from_body(r#"{"timestamp": 1234567891011}"#).unwrap(),
        1234567891011
    );
    assert!(get_timestamp_from_body(r#"{"timestamp": -1}"#).is_none());
    assert!(get_timestamp_from_body(r#"{"timestamp": 1.5}"#).is_none());
    assert!(get_timestamp_from_body(r#"{"log": "Some log message"}"#).is_none());
    assert!(get_timestamp_from_body("Not json at all").is_none())
}

#[test]
fn log_lines_that_would_overflow_do_not_fit() {
    let mut state = AppState::new();
    state.log_stats.update(u64::MAX - 1, u64::MAX - 3, "1.2.3.4");
    assert!(state.log_lines_fit(&vec!["abc".to_string()]));
    assert!(!state.log_lines_fit(&vec!["abcd".to_string()]));
    assert!(!state.log_lines_fit(&vec!["a".to_string(), "b".to_string()]));
    assert!(state.log_lines_fit(&vec![]));
}

#[test]
fn raw_logs_are_filed_at_the_given_time() {
    let raw_logs = vec![
        ("no timestamp".to_string(), metadata_from(vec![("a", "1")])),
        (r#"{"timestamp": 3}"#.to_string(), metadata_from(vec![("a", "2")])),
    ];
    let mut repository = LogRepository::from_raw_logs_at(&raw_logs, 9);
    assert_eq!(repository.len(), 2);
    assert_eq!(repository.get_message_count(9, 10, &query_from(vec![("a", "1")])), Ok(1));
    assert_eq!(repository.get_message_count(3, 4, &query_from(vec![("a", "2")])), Ok(1));
    assert_eq!(repository.get_message_count(3, 4, &query_from(vec![("a", "1")])), Ok(0));
}
