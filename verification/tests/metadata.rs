use receiver_mock::labels::Labels;
use receiver_mock::metadata::{
    get_common_metadata_from_headers, parse_sumo_fields_header_value, HeaderText, Headers,
    MetadataError, SourceHeader,
};
use std::collections::HashMap;

fn to_hash_map(metadata: &Labels) -> HashMap<String, String> {
    let mut map = HashMap::new();
    for i in 0..metadata.len() {
        map.insert(metadata.key_at(i).clone(), metadata.value_at(i).clone());
    }
    map
}

#[test]
fn test_parse_sumo_fields_valid() {
    let single_pair = "_collector=test";
    assert_eq!(
        to_hash_map(&parse_sumo_fields_header_value(single_pair).unwrap()),
        HashMap::from([(String::from("_collector"), String::from("test"))])
    );

    let multiple_pairs = "service=collection-kube-state-metrics, deployment=collection-kube-state-metrics, node=sumologic-control-plane";
    assert_eq!(
        to_hash_map(&parse_sumo_fields_header_value(multiple_pairs).unwrap()),
        HashMap::from([
            (
                String::from("service"),
                String::from("collection-kube-state-metrics")
            ),
            (
                String::from("deployment"),
                String::from("collection-kube-state-metrics")
            ),
            (String::from("node"), String::from("sumologic-control-plane"))
        ])
    );

    let empty = "";
    assert_eq!(
        to_hash_map(&parse_sumo_fields_header_value(empty).unwrap()),
        HashMap::new()
    );
}

#[test]
fn test_parse_sumo_fields_invalid() {
    let invalid_inputs = [",", "no_equals"];
    for input in invalid_inputs {
        assert!(parse_sumo_fields_header_value(input).is_err())
    }
}

#[test]
fn test_get_common_metadata_from_headers_valid() {
    let mut headers = Headers::new();
    headers.insert(
        String::from("x-sumo-name"),
        HeaderText::Text(String::from("name")),
    );
    headers.insert(
        String::from("x-sumo-host"),
        HeaderText::Text(String::from("host")),
    );
    headers.insert(
        String::from("x-sumo-category"),
        HeaderText::Text(String::from("category")),
    );
    let metadata = get_common_metadata_from_headers(&headers).unwrap();

    assert_eq!(
        to_hash_map(&metadata),
        HashMap::from([
            (String::from("_sourceName"), String::from("name")),
            (String::from("_sourceHost"), String::from("host")),
            (String::from("_sourceCategory"), String::from("category"))
        ])
    )
}

#[test]
fn test_get_common_metadata_from_headers_invalid() {
    let mut headers = Headers::new();
    headers.insert(String::from("x-sumo-name"), HeaderText::Opaque);
    let result = get_common_metadata_from_headers(&headers);
    match result {
        Ok(_) => panic!("Expected error, got valid result"),
        Err(error) => assert_eq!(error.message(), "Couldn't parse X-Sumo-Name header value"),
    }
}

#[test]
fn common_metadata_names_the_first_unreadable_header() {
    let mut headers = Headers::new();
    headers.insert(String::from("x-sumo-category"), HeaderText::Opaque);
    headers.insert(String::from("x-sumo-host"), HeaderText::Opaque);
    match get_common_metadata_from_headers(&headers) {
        Err(MetadataError::Unreadable(which)) => assert_eq!(which, SourceHeader::Host),
        other => panic!("unexpected {:?}", other),
    }
    let mut headers = Headers::new();
    headers.insert(String::from("x-sumo-category"), HeaderText::Opaque);
    match get_common_metadata_from_headers(&headers) {
        Err(error) => assert_eq!(error.message(), "Couldn't parse X-Sumo-Category header value"),
        Ok(_) => panic!("Expected error, got valid result"),
    }
}

#[test]
fn common_metadata_of_no_headers_is_empty() {
    let headers = Headers::new();
    let metadata = get_common_metadata_from_headers(&headers).unwrap();
    assert_eq!(metadata.len(), 0);
}

#[test]
fn sumo_fields_of_white_space_are_empty() {
    assert_eq!(parse_sumo_fields_header_value("  \t ").unwrap().len(), 0);
}

#[test]
fn sumo_fields_split_at_the_first_equals_sign() {
    let fields = parse_sumo_fields_header_value(" a=b=c , d= ").unwrap();
    assert_eq!(fields.len(), 2);
    assert_eq!(fields.get_text("a"), Some("b=c"));
    assert_eq!(fields.get_text("d"), Some(""));
}

#[test]
fn sumo_fields_keep_the_later_of_two_entries() {
    let fields = parse_sumo_fields_header_value("a=1,b=2,a=3").unwrap();
    assert_eq!(fields.len(), 2);
    assert_eq!(fields.get_text("a"), Some("3"));
    assert_eq!(fields.get_text("b"), Some("2"));
}

#[test]
fn sumo_fields_error_names_the_entry() {
    match parse_sumo_fields_header_value("a=1, oops ,b") {
        Err(error) => assert_eq!(
            error.message(),
            "Failed to parse X-Sumo-Fields, no `=` in  oops "
        ),
        Ok(_) => panic!("Expected error, got valid result"),
    }
}
