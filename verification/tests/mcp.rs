use oriel::mcp::{search_query, validate_params, validate_source, SearchSourceParams, MAX_QUERY_LENGTH};

fn params() -> SearchSourceParams {
    SearchSourceParams {
        source: "https://youtu.be/dQw4w9WgXcQ".to_owned(),
        query: "evidence".to_owned(),
        language: Some("en".to_owned()),
        refresh: false,
        limit: Some(5),
        start_ms: None,
        end_ms: None,
    }
}

#[test]
fn rejects_oversized_queries_and_result_sets() {
    let oversized = SearchSourceParams {
        source: "https://youtu.be/dQw4w9WgXcQ".to_owned(),
        query: "q".repeat(MAX_QUERY_LENGTH + 1),
        language: Some("en".to_owned()),
        refresh: false,
        limit: Some(5),
        start_ms: None,
        end_ms: None,
    };
    assert!(validate_params(&oversized).is_err());

    let too_many = SearchSourceParams {
        query: "evidence".to_owned(),
        limit: Some(21),
        ..oversized
    };
    assert!(validate_params(&too_many).is_err());
}

#[test]
fn bounded_requests_are_accepted_and_each_bound_is_named() {
    assert_eq!(validate_params(&params()), Ok(()));
    assert_eq!(
        validate_source(""),
        Err("source must contain between 1 and 2048 bytes")
    );
    assert_eq!(validate_source(&"é".repeat(1025)), Err("source must contain between 1 and 2048 bytes"));
    assert_eq!(validate_source(&"é".repeat(1024)), Ok(()));
    let empty = SearchSourceParams { query: String::new(), ..params() };
    assert_eq!(validate_params(&empty), Err("query must contain between 1 and 4096 bytes"));
    let many = SearchSourceParams { limit: Some(21), ..params() };
    assert_eq!(validate_params(&many), Err("limit cannot exceed 20 moments"));
    let twenty = SearchSourceParams { limit: Some(20), ..params() };
    assert_eq!(validate_params(&twenty), Ok(()));
}

#[test]
fn a_search_request_defaults_to_five_moments() {
    let request = SearchSourceParams { limit: None, start_ms: Some(1), end_ms: Some(9), ..params() };
    let query = search_query(&request);
    assert_eq!(query.limit, 5);
    assert_eq!(query.text, "evidence");
    assert_eq!(query.start_ms, Some(1));
    assert_eq!(query.end_ms, Some(9));
}
