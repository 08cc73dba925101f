use receiver_mock::labels::Labels;
use receiver_mock::strmap::StrMap;
use receiver_mock::traces::{
    filter_spans, filter_traces, is_span_ok, Span, Trace, TracesHandleResult,
};

fn labels_from(pairs: &[(&str, &str)]) -> Labels {
    let mut labels = Labels::new();
    for (key, value) in pairs {
        labels.set(key.to_string(), value.to_string());
    }
    labels
}

fn span(name: &str, id: &str, trace_id: &str, attributes: &[(&str, &str)]) -> Span {
    Span {
        name: name.to_string(),
        id: id.to_string(),
        trace_id: trace_id.to_string(),
        parent_span_id: String::new(),
        attributes: labels_from(attributes),
    }
}

#[test]
fn handle_span_counts_and_keeps_the_span() {
    let mut result = TracesHandleResult::new();
    assert_eq!(result.spans_count, 0);
    assert_eq!(result.spans.len(), 0);
    result.handle_span(span("a", "01", "t1", &[]));
    result.handle_span(span("b", "02", "t1", &[]));
    assert_eq!(result.spans_count, 2);
    assert_eq!(result.spans.len(), 2);
    assert_eq!(result.spans[1].name, "b");
}

#[test]
fn new_trace_has_no_spans() {
    assert_eq!(Trace::new().span_ids.len(), 0);
}

#[test]
fn span_predicate_matches_name_and_attributes() {
    let s = span("op", "01", "t1", &[("kind", "server"), ("zone", "x")]);
    assert!(is_span_ok(&s, &Labels::new()));
    assert!(is_span_ok(&s, &labels_from(&[("kind", "server")])));
    assert!(is_span_ok(&s, &labels_from(&[("kind", "")])));
    assert!(!is_span_ok(&s, &labels_from(&[("kind", "serv.*")])));
    assert!(!is_span_ok(&s, &labels_from(&[("missing", "")])));
    assert!(is_span_ok(&s, &labels_from(&[("__name__", "op")])));
    assert!(is_span_ok(&s, &labels_from(&[("__name__", "")])));
    assert!(!is_span_ok(&s, &labels_from(&[("__name__", "other")])));
    assert!(!is_span_ok(
        &s,
        &labels_from(&[("kind", "server"), ("zone", "y")])
    ));
}

#[test]
fn filter_spans_keeps_the_stored_order() {
    let mut spans: StrMap<Span> = StrMap::new();
    spans.insert("01".to_string(), span("a", "01", "t1", &[("kind", "server")]));
    spans.insert("02".to_string(), span("b", "02", "t1", &[("kind", "client")]));
    spans.insert("03".to_string(), span("c", "03", "t2", &[("kind", "server")]));
    let found = filter_spans(&spans, &labels_from(&[("kind", "server")]));
    assert_eq!(found.len(), 2);
    assert_eq!(found[0].id, "01");
    assert_eq!(found[1].id, "03");
    assert_eq!(filter_spans(&spans, &Labels::new()).len(), 3);
}

#[test]
fn filter_traces_passes_over_spans_that_are_not_stored() {
    let mut spans: StrMap<Span> = StrMap::new();
    spans.insert("01".to_string(), span("a", "01", "t1", &[("kind", "server")]));
    spans.insert("03".to_string(), span("c", "03", "t2", &[("kind", "client")]));
    let mut traces: StrMap<Trace> = StrMap::new();
    traces.insert(
        "t1".to_string(),
        Trace {
            span_ids: vec!["01".to_string(), "02".to_string()],
        },
    );
    traces.insert(
        "t2".to_string(),
        Trace {
            span_ids: vec!["03".to_string()],
        },
    );
    traces.insert(
        "t3".to_string(),
        Trace {
            span_ids: vec!["04".to_string()],
        },
    );
    let all = filter_traces(&traces, &spans, &Labels::new());
    // a trace without a stored span has no span that meets the query
    assert_eq!(all.len(), 2);
    assert_eq!(all[0].len(), 1);
    assert_eq!(all[0][0].id, "01");
    assert_eq!(all[1][0].id, "03");
    let servers = filter_traces(&traces, &spans, &labels_from(&[("kind", "server")]));
    assert_eq!(servers.len(), 1);
    assert_eq!(servers[0][0].name, "a");
}
