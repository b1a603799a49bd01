use oriel::fixture::compile_fixture;
use oriel::search::{search, SearchError, SearchQuery};

const FIXTURE: &str = "schema_version\t1\n\
source_url\thttps://youtu.be/dQw4w9WgXcQ\n\
title\tRetrieval fixture\n\
creator\tOriel\n\
duration_ms\t30000\n\
language\ten\n\
caption_provenance\tgenerated\n\
cue\t0\t10000\tThe source states a claim without demonstrating it.\n\
cue\t10000\t20000\tA diagram demonstrates the cache invalidation pipeline.\n\
cue\t20000\t30000\tThe speaker corrects the earlier cache claim.\n";

#[test]
fn ranks_complete_and_phrase_matches_first() {
    let source = compile_fixture(FIXTURE).expect("fixture should compile");
    let results = search(&source, &SearchQuery::new("cache invalidation pipeline".to_owned()))
        .expect("search should work");

    assert_eq!(results.len(), 2);
    assert_eq!(results[0].evidence.start_ms, 10_000);
    assert_eq!(results[0].matched_terms, ["cache", "invalidation", "pipeline"]);
    assert!(results[0].score > results[1].score);
}

#[test]
fn supports_natural_questions_and_timestamp_filters() {
    let source = compile_fixture(FIXTURE).expect("fixture should compile");
    let mut query = SearchQuery::new("Where does the speaker correct the cache claim?".to_owned());
    query.start_ms = Some(20_000);
    query.end_ms = Some(30_000);

    let results = search(&source, &query).expect("search should work");
    assert_eq!(results.len(), 1);
    assert_eq!(results[0].evidence.start_ms, 20_000);
}

#[test]
fn returns_no_evidence_for_an_absent_answer() {
    let source = compile_fixture(FIXTURE).expect("fixture should compile");
    let results = search(&source, &SearchQuery::new("anthropology".to_owned())).expect("search should work");
    assert!(results.is_empty());
}

#[test]
fn rejects_empty_queries_and_ranges() {
    let source = compile_fixture(FIXTURE).expect("fixture should compile");
    assert_eq!(
        search(&source, &SearchQuery::new("what is this?".to_owned())),
        Err(SearchError::EmptyQuery)
    );

    let mut query = SearchQuery::new("cache".to_owned());
    query.start_ms = Some(20_000);
    query.end_ms = Some(10_000);
    assert_eq!(search(&source, &query), Err(SearchError::InvalidTimestampRange));
}

#[test]
fn a_zero_limit_is_refused_and_a_limit_caps_the_results() {
    let source = compile_fixture(FIXTURE).expect("fixture should compile");
    let mut query = SearchQuery::new("cache".to_owned());
    query.limit = 0;
    assert_eq!(search(&source, &query).map(|r| r.len()), Err(SearchError::ZeroLimit));

    let mut query = SearchQuery::new("cache claim".to_owned());
    query.limit = 1;
    let results = search(&source, &query).expect("search should work");
    assert_eq!(results.len(), 1);
    assert_eq!(results[0].evidence.start_ms, 20_000);
}

#[test]
fn results_come_in_rank_order() {
    let source = compile_fixture(FIXTURE).expect("fixture should compile");
    let results = search(&source, &SearchQuery::new("cache claim demonstrates".to_owned()))
        .expect("search should work");
    assert!(results.len() >= 2);
    for pair in results.windows(2) {
        assert!(pair[0].score >= pair[1].score);
    }
}

#[test]
fn search_errors_read_as_sentences() {
    assert_eq!(
        SearchError::EmptyQuery.message(),
        "the search query contains no searchable terms"
    );
    assert_eq!(
        SearchError::InvalidTimestampRange.message(),
        "the search timestamp range is invalid"
    );
}

#[test]
fn queries_match_regardless_of_case() {
    let source = compile_fixture(FIXTURE).expect("fixture should compile");
    let results = search(&source, &SearchQuery::new("PIPELINE".to_owned())).expect("search should work");
    assert_eq!(results.len(), 1);
    assert_eq!(results[0].evidence.start_ms, 10_000);
    assert_eq!(results[0].matched_terms, ["pipeline"]);
}
