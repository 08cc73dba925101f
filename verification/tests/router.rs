use receiver_mock::labels::Labels;
use receiver_mock::metadata::{HeaderText, Headers};
use receiver_mock::options::{Options, Print};
use receiver_mock::queries::{
    default_from_ts, default_to_ts, handler_logs_count, logs_not_stored_hint, handler_metrics_reset,
    handler_metrics_samples, parse_u64, handler_metrics, handler_metrics_ips, handler_metrics_list,
    LogsCountOutcome, LogsParams,
};
use receiver_mock::regex::RegexError;
use receiver_mock::router::{
    drop_decision, format_for, get_address, get_content_type, get_invalid_header_response,
    handler_receiver, receive, try_dropping_data, Format, Request, Response, ResponseBody,
    DUMMY_ERROR_ID,
};
use receiver_mock::state::AppState;
use receiver_mock::time::{get_now, get_now_ms, millis_from, seconds_from, to_millis};
use std::collections::HashMap;

fn options() -> Options {
    Options {
        print: Print {
            logs: false,
            headers: false,
            metrics: false,
            spans: false,
        },
        delay_time: std::time::Duration::from_secs(0),
        drop_rate: 0,
        store_traces: true,
        store_metrics: true,
        store_logs: true,
    }
}

fn request(content_type: &str, body: &str, headers: &[(&str, &str)]) -> Request {
    let mut all = Headers::new();
    all.insert(
        "content-type".to_string(),
        HeaderText::Text(content_type.to_string()),
    );
    for (name, value) in headers {
        all.insert(name.to_lowercase(), HeaderText::Text(value.to_string()));
    }
    Request {
        peer_address: Some("10.0.0.1".to_string()),
        headers: all,
        body: Ok(body.to_string()),
    }
}

fn body_text(response: &Response) -> String {
    match &response.body {
        ResponseBody::Text(text) => text.clone(),
        ResponseBody::Error(error) => error.errors[0].message.clone(),
    }
}

fn params(pairs: &[(&str, &str)]) -> Labels {
    let mut labels = Labels::new();
    for (key, value) in pairs {
        labels.set(key.to_string(), value.to_string());
    }
    labels
}

fn count(state: &mut AppState, query: &[(&str, &str)], opts: &Options) -> usize {
    match handler_logs_count(state, &params(query), opts) {
        LogsCountOutcome::Count(response) => response.count,
        other => panic!("unexpected {:?}", other),
    }
}

fn to_hash_map(labels: &Labels) -> HashMap<String, String> {
    let mut map = HashMap::new();
    for i in 0..labels.len() {
        map.insert(labels.key_at(i).clone(), labels.value_at(i).clone());
    }
    map
}

#[test]
fn mod_test_handler_metrics_reset() {
    let mut state = AppState::new();
    state.metrics_list.add_count("mem_active", 1000);
    state.metrics_list.add_count("mem_free", 2000);
    state.metrics = 3000;

    assert_eq!(
        handler_metrics(&state),
        "# TYPE receiver_mock_metrics_count counter\n\
         receiver_mock_metrics_count 3000\n\
         # TYPE receiver_mock_logs_count counter\n\
         receiver_mock_logs_count 0\n\
         # TYPE receiver_mock_logs_bytes_count counter\n\
         receiver_mock_logs_bytes_count 0\n"
    );
    assert_eq!(handler_metrics_reset(&mut state), "All metrics were reset successfully");
    assert_eq!(
        handler_metrics(&state),
        "# TYPE receiver_mock_metrics_count counter\n\
         receiver_mock_metrics_count 0\n\
         # TYPE receiver_mock_logs_count counter\n\
         receiver_mock_logs_count 0\n\
         # TYPE receiver_mock_logs_bytes_count counter\n\
         receiver_mock_logs_bytes_count 0\n"
    );
}

#[test]
fn mod_test_handler_metrics_list() {
    let mut state = AppState::new();
    state.metrics_list.add_count("mem_free", 2000);
    state.metrics = 2000;

    assert_eq!(handler_metrics_list(&state), "mem_free: 2000\n");
}

#[test]
fn mod_test_handler_metrics_storage() {
    let mut state = AppState::new();
    let opts = options();

    {
        let req = request(
            "application/vnd.sumologic.prometheus",
            r#"apiserver_request_total{cluster="microk8s",mock="yes",code="200",component="apiserver",endpoint="https",group="events.k8s.io",job="apiserver"} 123.12 1638873379541"#,
            &[],
        );
        let resp = receive(&mut state, &req, &opts, 50, 0);
        assert_eq!(resp.status, 200);
        assert_eq!(body_text(&resp), "");
    }
    {
        let result = handler_metrics_samples(&state, &Labels::new(), &opts).unwrap();
        assert_eq!(result.len(), 1);
        assert_eq!(result.get(0).metric, "apiserver_request_total");
        assert_eq!(f64::from_bits(result.get(0).value_bits), 123.12);
        assert_eq!(result.get(0).timestamp, 1638873379541);
        assert_eq!(
            to_hash_map(&result.get(0).labels),
            HashMap::<String, String>::from_iter(
                vec![
                    ("mock".to_owned(), "yes".to_owned()),
                    ("group".to_owned(), "events.k8s.io".to_owned()),
                    ("code".to_owned(), "200".to_owned()),
                    ("job".to_owned(), "apiserver".to_owned()),
                    ("cluster".to_owned(), "microk8s".to_owned()),
                    ("component".to_owned(), "apiserver".to_owned()),
                    ("endpoint".to_owned(), "https".to_owned()),
                ]
                .into_iter()
            )
        );
    }
    {
        // Another request with a different time series (different labels set)
        // should produce a different/new time series
        let req = request(
            "application/vnd.sumologic.prometheus",
            r#"apiserver_request_total{cluster="microk8s",code="200",component="apiserver",endpoint="https",group="events.k8s.io",job="apiserver",namespace="default",resource="events"} 128.12 1638873379541"#,
            &[],
        );
        let resp = receive(&mut state, &req, &opts, 50, 0);
        assert_eq!(resp.status, 200);
    }
    let second_labels = HashMap::<String, String>::from_iter(
        vec![
            ("cluster".to_owned(), "microk8s".to_owned()),
            ("code".to_owned(), "200".to_owned()),
            ("component".to_owned(), "apiserver".to_owned()),
            ("endpoint".to_owned(), "https".to_owned()),
            ("group".to_owned(), "events.k8s.io".to_owned()),
            ("job".to_owned(), "apiserver".to_owned()),
            ("namespace".to_owned(), "default".to_owned()),
            ("resource".to_owned(), "events".to_owned()),
        ]
        .into_iter(),
    );
    {
        // This time series has a namespace & resources labels while the other
        // one doesn't.
        let result = handler_metrics_samples(&state, &params(&[("resource", "events")]), &opts).unwrap();
        assert_eq!(result.len(), 1);
        assert_eq!(result.get(0).metric, "apiserver_request_total");
        assert_eq!(f64::from_bits(result.get(0).value_bits), 128.12);
        assert_eq!(result.get(0).timestamp, 1638873379541);
        assert_eq!(to_hash_map(&result.get(0).labels), second_labels);
    }
    {
        // Checking for existence of `namespace` label should also yield the
        // second time series only.
        let result = handler_metrics_samples(&state, &params(&[("namespace", "")]), &opts).unwrap();
        assert_eq!(result.len(), 1);
        assert_eq!(result.get(0).metric, "apiserver_request_total");
        assert_eq!(f64::from_bits(result.get(0).value_bits), 128.12);
        assert_eq!(result.get(0).timestamp, 1638873379541);
        assert_eq!(to_hash_map(&result.get(0).labels), second_labels);
    }
    {
        // and now let's check the previous time series with URL query params
        let result = handler_metrics_samples(&state, &params(&[("mock", "yes")]), &opts).unwrap();
        assert_eq!(result.len(), 1);
        assert_eq!(result.get(0).metric, "apiserver_request_total");
        assert_eq!(f64::from_bits(result.get(0).value_bits), 123.12);
        assert_eq!(result.get(0).timestamp, 1638873379541);
        assert_eq!(to_hash_map(&result.get(0).labels).len(), 7);
    }
    {
        // Now let's just check that we have those 2 time series when no
        // filters are applied.
        let result = handler_metrics_samples(&state, &Labels::new(), &opts).unwrap();
        assert_eq!(result.len(), 2);
    }
}

#[test]
fn test_handler_logs_count() {
    let x_sumo_fields_values = [
        "namespace=default, deployment=collection-kube-state-metrics, node=sumologic-control-plane",
        "namespace=sumologic, deployment=collection-kube-state-metrics, node=sumologic-control-plane",
        "namespace=kube-system, statefulset=collection-fluentd-metrics",
    ];
    let timestamps = [1, 5, 8];
    let raw_logs: Vec<_> = timestamps
        .iter()
        .map(|ts| format!("{{\"log\": \"Log message\", \"timestamp\": {}}}", ts))
        .collect();
    let mut state = AppState::new();
    let opts = options();

    // invalid x-sumo-fields results in a 400
    {
        let req = request(
            "application/x-www-form-urlencoded",
            &raw_logs[0],
            &[("X-Sumo-Fields", ",no_equals_sign")],
        );
        let resp = receive(&mut state, &req, &opts, 50, 0);
        assert_eq!(resp.status, 400);
        assert_eq!(body_text(&resp), "Unable to parse X-Sumo-Fields header value");
    }

    // add logs with metadata
    {
        for i in 0..raw_logs.len() {
            let req = request(
                "application/x-www-form-urlencoded",
                &raw_logs[i],
                &[
                    ("X-Sumo-Fields", x_sumo_fields_values[i]),
                    ("X-Sumo-Host", "localhost"),
                    ("X-Sumo-Category", "category"),
                    ("X-Sumo-Name", "name"),
                ],
            );
            let resp = receive(&mut state, &req, &opts, 50, 0);
            assert_eq!(resp.status, 200);
        }
    }

    // count all the logs
    assert_eq!(count(&mut state, &[], &opts), 3);

    // from_ts is inclusive
    assert_eq!(count(&mut state, &[("from_ts", "5")], &opts), 2);

    // to_ts is exclusive
    assert_eq!(count(&mut state, &[("to_ts", "5")], &opts), 1);

    // normal metadata query
    assert_eq!(
        count(
            &mut state,
            &[("deployment", "collection-kube-state-metrics")],
            &opts
        ),
        2
    );

    // X-Sumo-* fields
    assert_eq!(
        count(
            &mut state,
            &[
                ("_sourceName", "name"),
                ("_sourceHost", "localhost"),
                ("_sourceCategory", "category")
            ],
            &opts
        ),
        3
    );

    // wildcard query
    assert_eq!(count(&mut state, &[("namespace", "")], &opts), 3);

    // everything at once
    assert_eq!(
        count(
            &mut state,
            &[
                ("namespace", ""),
                ("deployment", "collection-kube-state-metrics"),
                ("from_ts", "5"),
                ("to_ts", "10")
            ],
            &opts
        ),
        1
    );
}

#[test]
fn log_queries_match_by_pattern() {
    let mut state = AppState::new();
    let opts = options();
    for value in ["value", "valueSUFFIX", "PREFIXvalue", "PREFIXvalueSUFFIX"] {
        let fields = format!("key={}", value);
        let req = request(
            "application/x-www-form-urlencoded",
            r#"{"timestamp": 3}"#,
            &[("X-Sumo-Fields", fields.as_str())],
        );
        assert_eq!(receive(&mut state, &req, &opts, 50, 0).status, 200);
    }
    assert_eq!(count(&mut state, &[("key", "value")], &opts), 1);
    assert_eq!(count(&mut state, &[("key", "value.*")], &opts), 2);
    assert_eq!(count(&mut state, &[("key", ".*value.*")], &opts), 4);
    assert!(matches!(
        handler_logs_count(&mut state, &params(&[("key", "(")]), &opts),
        LogsCountOutcome::Failed(RegexError::InvalidPattern)
    ));
}

#[test]
fn logs_count_needs_stored_logs_and_a_numeric_range() {
    let mut state = AppState::new();
    let mut opts = options();
    assert!(matches!(
        handler_logs_count(&mut state, &params(&[("from_ts", "x")]), &opts),
        LogsCountOutcome::BadRange
    ));
    assert!(matches!(
        handler_logs_count(&mut state, &params(&[("to_ts", "-1")]), &opts),
        LogsCountOutcome::BadRange
    ));
    opts.store_logs = false;
    assert!(matches!(
        handler_logs_count(&mut state, &Labels::new(), &opts),
        LogsCountOutcome::NotStored
    ));
    assert_eq!(
        logs_not_stored_hint(),
        "Use the --store-logs flag to enable this endpoint"
    );
    assert!(handler_metrics_samples(&state, &Labels::new(), &{
        let mut o = options();
        o.store_metrics = false;
        o
    })
    .is_none());
}

#[test]
fn time_range_defaults_to_everything() {
    assert_eq!(default_from_ts(), 0);
    assert_eq!(default_to_ts(), u64::MAX);
    let range = LogsParams::from_params(&Labels::new()).unwrap();
    assert_eq!((range.from_ts, range.to_ts), (0, u64::MAX));
    let range = LogsParams::from_params(&params(&[("to_ts", "17"), ("x", "y")])).unwrap();
    assert_eq!((range.from_ts, range.to_ts), (0, 17));
    assert!(LogsParams::from_params(&params(&[("from_ts", "")])).is_none());
}

#[test]
fn numbers_are_read_from_decimal_digits() {
    assert_eq!(parse_u64("0"), Some(0));
    assert_eq!(parse_u64("007"), Some(7));
    assert_eq!(parse_u64("+15"), Some(15));
    assert_eq!(parse_u64("18446744073709551615"), Some(u64::MAX));
    assert_eq!(parse_u64("18446744073709551616"), None);
    assert_eq!(parse_u64("99999999999999999999999"), None);
    assert_eq!(parse_u64(""), None);
    assert_eq!(parse_u64("+"), None);
    assert_eq!(parse_u64("-1"), None);
    assert_eq!(parse_u64("1.5"), None);
    assert_eq!(parse_u64(" 1"), None);
    assert_eq!(parse_u64("12a"), None);
}

#[test]
fn carbon2_request_counts_metrics() {
    let mut state = AppState::new();
    let opts = options();
    let body = "metric=mem_available_percent host=myhostname  50.43 1601906858
metric=mem_free host=myhostname  12677414912 1601906858
metric=mem_total host=myhostname  68719476736 1601906858
metric=mem_used host=myhostname  34063699968 1601906858
metric=mem_used_percent host=myhostname  49.56 1601906858
metric=mem_active host=myhostname  25058705408 1601906858
metric=mem_inactive host=myhostname  21978361856 1601906858
metric=mem_wired host=myhostname  5661790208 1601906858
metric=mem_available host=myhostname  34655776768 1601906858
";
    let req = request("application/vnd.sumologic.carbon2", body, &[]);
    assert_eq!(receive(&mut state, &req, &opts, 0, 0).status, 200);
    assert_eq!(state.metrics, 9);
    assert_eq!(state.metrics_list.len(), 9);
    for i in 0..9 {
        assert!(state.metrics_list.key_at(i).starts_with("mem_"));
        assert_eq!(*state.metrics_list.value_at(i), 1);
    }
    assert_eq!(handler_metrics_ips(&state), "10.0.0.1: 9\n");
}

#[test]
fn dropped_request_changes_nothing() {
    let mut state = AppState::new();
    let mut opts = options();
    opts.drop_rate = 100;
    for content_type in [
        "application/vnd.sumologic.carbon2",
        "application/vnd.sumologic.graphite",
        "application/vnd.sumologic.prometheus",
        "application/x-www-form-urlencoded",
        "text/plain",
    ] {
        let req = request(content_type, "metric=a  1 2\na.b.c 1 2", &[]);
        let resp = handler_receiver(&mut state, &req, &opts);
        assert_eq!(resp.status, 500);
        assert_eq!(body_text(&resp), format!("Dropping data for {}", content_type));
    }
    assert_eq!(state.metrics, 0);
    assert_eq!(state.metrics_list.len(), 0);
    assert_eq!(state.metrics_ip_list.len(), 0);
    assert_eq!(state.metrics_samples.len(), 0);
    assert_eq!(state.log_stats.total.message_count, 0);
    assert_eq!(state.log_messages.len(), 0);
}

#[test]
fn drop_decision_compares_the_number_with_the_rate() {
    assert!(drop_decision(9, 10, "a/b").is_some());
    assert!(drop_decision(10, 10, "a/b").is_none());
    assert!(drop_decision(0, 0, "a/b").is_none());
    assert!(drop_decision(99, 100, "a/b").is_some());
    assert_eq!(body_text(&drop_decision(0, 1, "a/b").unwrap()), "Dropping data for a/b");
    let mut opts = options();
    for _ in 0..50 {
        opts.drop_rate = 0;
        assert!(try_dropping_data(&opts, "a/b").is_none());
        opts.drop_rate = 100;
        assert!(try_dropping_data(&opts, "a/b").is_some());
    }
}

#[test]
fn unknown_content_type_gets_the_error_answer() {
    let mut state = AppState::new();
    let opts = options();
    let req = request("application/x-protobuf", "abc", &[]);
    let resp = receive(&mut state, &req, &opts, 50, 0);
    assert_eq!(resp.status, 400);
    match &resp.body {
        ResponseBody::Error(error) => {
            assert_eq!(error.id, DUMMY_ERROR_ID);
            assert_eq!(error.errors.len(), 1);
            assert_eq!(error.errors[0].code, "header:invalid");
            assert_eq!(
                error.errors[0].message,
                "Invalid Content-Type header: application/x-protobuf"
            );
        }
        other => panic!("unexpected {:?}", other),
    }
    let missing = Request {
        peer_address: None,
        headers: Headers::new(),
        body: Ok(String::new()),
    };
    let resp = receive(&mut state, &missing, &opts, 50, 0);
    assert_eq!(resp.status, 400);
    assert_eq!(body_text(&resp), "Invalid Content-Type header: ");
    assert_eq!(
        body_text(&get_invalid_header_response("x")),
        "Invalid Content-Type header: x"
    );
}

#[test]
fn checks_come_in_their_order() {
    let mut state = AppState::new();
    let mut opts = options();
    opts.drop_rate = 100;
    // a body that is no text is refused before anything else
    let mut req = request("application/vnd.sumologic.carbon2", "", &[]);
    req.body = Err("invalid utf-8 sequence".to_string());
    req.headers
        .insert("x-sumo-name".to_string(), HeaderText::Opaque);
    let resp = receive(&mut state, &req, &opts, 0, 0);
    assert_eq!((resp.status, body_text(&resp).as_str()), (400, "invalid utf-8 sequence"));
    // then the content type
    let mut req = request("application/vnd.sumologic.carbon2", "", &[]);
    req.headers
        .insert("content-type".to_string(), HeaderText::Opaque);
    req.headers
        .insert("x-sumo-name".to_string(), HeaderText::Opaque);
    let resp = receive(&mut state, &req, &opts, 0, 0);
    assert_eq!(
        (resp.status, body_text(&resp).as_str()),
        (400, "failed to convert header to a str")
    );
    // then the source headers
    let mut req = request("application/vnd.sumologic.carbon2", "", &[]);
    req.headers
        .insert("x-sumo-host".to_string(), HeaderText::Opaque);
    let resp = receive(&mut state, &req, &opts, 0, 0);
    assert_eq!(
        (resp.status, body_text(&resp).as_str()),
        (400, "Couldn't parse X-Sumo-Host header value")
    );
    // then the drop, before the content type is looked at
    let req = request("text/plain", "", &[]);
    let resp = receive(&mut state, &req, &opts, 99, 0);
    assert_eq!(
        (resp.status, body_text(&resp).as_str()),
        (500, "Dropping data for text/plain")
    );
    // an unreadable fields header only matters for logs
    opts.drop_rate = 0;
    let mut req = request("application/x-www-form-urlencoded", "line", &[]);
    req.headers
        .insert("x-sumo-fields".to_string(), HeaderText::Opaque);
    let resp = receive(&mut state, &req, &opts, 0, 0);
    assert_eq!(
        (resp.status, body_text(&resp).as_str()),
        (400, "Unable to parse X-Sumo-Fields header value")
    );
    req.headers
        .insert("content-type".to_string(), HeaderText::Text("application/vnd.sumologic.graphite".to_string()));
    assert_eq!(receive(&mut state, &req, &opts, 0, 0).status, 200);
    assert_eq!(state.log_stats.total.message_count, 0);
}

#[test]
fn log_lines_are_counted_and_filed() {
    let mut state = AppState::new();
    let mut opts = options();
    let req = request(
        "application/x-www-form-urlencoded",
        "  first line\r\n\n{\"timestamp\": 7}\nthird\n\n",
        &[("X-Sumo-Fields", "a=1"), ("X-Sumo-Name", "n")],
    );
    assert_eq!(receive(&mut state, &req, &opts, 50, 1234).status, 200);
    // empty lines are passed over
    assert_eq!(state.log_stats.total.message_count, 3);
    assert_eq!(
        state.log_stats.total.byte_count,
        ("first line".len() + "{\"timestamp\": 7}".len() + "third".len()) as u64
    );
    assert_eq!(
        state.log_stats.get_stats_for_ipaddr("10.0.0.1").message_count,
        3
    );
    assert_eq!(state.log_messages.len(), 3);
    assert_eq!(count(&mut state, &[("from_ts", "7"), ("to_ts", "8")], &opts), 1);
    assert_eq!(count(&mut state, &[("from_ts", "1234"), ("to_ts", "1235")], &opts), 2);
    assert_eq!(count(&mut state, &[("a", "1"), ("_sourceName", "n")], &opts), 3);
    // without storing, lines are counted only
    opts.store_logs = false;
    assert_eq!(receive(&mut state, &req, &opts, 50, 1234).status, 200);
    assert_eq!(state.log_stats.total.message_count, 6);
    assert_eq!(state.log_messages.len(), 3);
    assert_eq!(
        handler_metrics(&state),
        format!(
            "# TYPE receiver_mock_metrics_count counter\n\
             receiver_mock_metrics_count 0\n\
             # TYPE receiver_mock_logs_count counter\n\
             receiver_mock_logs_count 6\n\
             # TYPE receiver_mock_logs_bytes_count counter\n\
             receiver_mock_logs_bytes_count {bytes}\n\
             # TYPE receiver_mock_logs_ip_count counter\n\
             receiver_mock_logs_ip_count{{ip_address=\"10.0.0.1\"}} 6\n\
             # TYPE receiver_mock_logs_bytes_ip_count counter\n\
             receiver_mock_logs_bytes_ip_count{{ip_address=\"10.0.0.1\"}} {bytes}\n",
            bytes = state.log_stats.total.byte_count
        )
    );
}

#[test]
fn fields_of_the_fields_header_count_over_the_source_headers() {
    let mut state = AppState::new();
    let opts = options();
    let req = request(
        "application/x-www-form-urlencoded",
        "{\"timestamp\": 1}",
        &[("X-Sumo-Fields", "_sourceName=other"), ("X-Sumo-Name", "n")],
    );
    assert_eq!(receive(&mut state, &req, &opts, 50, 0).status, 200);
    assert_eq!(count(&mut state, &[("_sourceName", "other")], &opts), 1);
    assert_eq!(count(&mut state, &[("_sourceName", "n")], &opts), 0);
}

#[test]
fn metrics_by_address_are_rendered_as_a_family() {
    let mut state = AppState::new();
    let opts = options();
    let req = request("application/vnd.sumologic.graphite", "a.b.c 1 2\na.b.d 1 2", &[]);
    assert_eq!(receive(&mut state, &req, &opts, 50, 0).status, 200);
    let mut other = request("application/vnd.sumologic.graphite", "a.b.c 1 2", &[]);
    other.peer_address = None;
    assert_eq!(receive(&mut state, &other, &opts, 50, 0).status, 200);
    assert_eq!(
        handler_metrics(&state),
        "# TYPE receiver_mock_metrics_count counter\n\
         receiver_mock_metrics_count 3\n\
         # TYPE receiver_mock_logs_count counter\n\
         receiver_mock_logs_count 0\n\
         # TYPE receiver_mock_logs_bytes_count counter\n\
         receiver_mock_logs_bytes_count 0\n\
         # TYPE receiver_mock_metrics_ip_count counter\n\
         receiver_mock_metrics_ip_count{ip_address=\"10.0.0.1\"} 2\n\
         receiver_mock_metrics_ip_count{ip_address=\"127.0.0.1\"} 1\n"
    );
    assert_eq!(handler_metrics_list(&state), "b_c: 2\nb_d: 1\n");
    assert_eq!(handler_metrics_ips(&state), "10.0.0.1: 2\n127.0.0.1: 1\n");
}

#[test]
fn series_keeps_the_sample_that_came_last() {
    let mut state = AppState::new();
    let opts = options();
    let first = request(
        "application/vnd.sumologic.prometheus",
        "apiserver_request_total{code=\"200\",job=\"apiserver\"} 123.12 1638873379541",
        &[],
    );
    let second = request(
        "application/vnd.sumologic.prometheus",
        "apiserver_request_total{code=\"200\",job=\"apiserver\"} 200.0 1638873379542",
        &[],
    );
    assert_eq!(receive(&mut state, &first, &opts, 50, 0).status, 200);
    assert_eq!(receive(&mut state, &second, &opts, 50, 0).status, 200);
    let found = handler_metrics_samples(
        &state,
        &params(&[("__name__", "apiserver_request_total")]),
        &opts,
    )
    .unwrap();
    assert_eq!(found.len(), 1);
    assert_eq!(f64::from_bits(found.get(0).value_bits), 200.0);
    assert_eq!(found.get(0).timestamp, 1638873379542);
    assert_eq!(state.metrics, 2);
}

#[test]
fn samples_are_not_stored_without_the_flag() {
    let mut state = AppState::new();
    let mut opts = options();
    opts.store_metrics = false;
    let req = request("application/vnd.sumologic.prometheus", "up 1 5", &[]);
    assert_eq!(receive(&mut state, &req, &opts, 50, 0).status, 200);
    assert_eq!(state.metrics, 1);
    assert_eq!(state.metrics_samples.len(), 0);
}

#[test]
fn address_and_content_type_have_defaults() {
    assert_eq!(get_address(&None), "127.0.0.1");
    assert_eq!(get_address(&Some("::1".to_string())), "::1");
    assert_eq!(get_content_type(&Headers::new()), Some(String::new()));
    let mut headers = Headers::new();
    headers.insert("content-type".to_string(), HeaderText::Opaque);
    assert_eq!(get_content_type(&headers), None);
    assert_eq!(format_for("application/vnd.sumologic.carbon2"), Some(Format::Carbon2));
    assert_eq!(format_for("application/vnd.sumologic.graphite"), Some(Format::Graphite));
    assert_eq!(
        format_for("application/vnd.sumologic.prometheus"),
        Some(Format::Prometheus)
    );
    assert_eq!(format_for("application/x-www-form-urlencoded"), Some(Format::Logs));
    assert_eq!(format_for("application/json"), None);
}

#[test]
fn clock_reads_a_time_after_the_epoch() {
    let secs = get_now();
    let millis = get_now_ms();
    assert!(secs > 1_600_000_000);
    assert!(millis / 1000 >= secs);
    assert!(millis / 1000 <= secs + 5);
    assert_eq!(to_millis(3, 250), 3250);
    assert_eq!(seconds_from(Some((3, 250))), 3);
    assert_eq!(seconds_from(None), 0);
    assert_eq!(millis_from(Some((3, 250))), 3250);
    assert_eq!(millis_from(None), 0);
    assert_eq!(to_millis(u64::MAX, 999), 999u64.wrapping_sub(1000));
}

#[test]
fn new_state_holds_nothing() {
    let state = AppState::new();
    assert_eq!(state.metrics, 0);
    assert_eq!(state.spans, 0);
    assert_eq!(state.log_stats.total.message_count, 0);
    assert_eq!(state.log_stats.total.byte_count, 0);
    assert_eq!(state.log_stats.ipaddr.len(), 0);
    assert_eq!(state.log_messages.len(), 0);
    assert_eq!(state.log_messages.regex_cache().len(), 0);
    assert_eq!(state.metrics_samples.len(), 0);
    assert_eq!(state.metrics_list.len(), 0);
    assert_eq!(state.metrics_ip_list.len(), 0);
    assert_eq!(state.spans_list.len(), 0);
    assert_eq!(state.traces_list.len(), 0);
}
