use oriel::engine::{
    evidence_packet, timestamp_label, transcript_packet, CacheReport, CacheStatus, EngineError,
    Resolution, SourceEngine,
};
use oriel::evidence::CaptionProvenance;
use oriel::fixture::compile_fixture;
use oriel::provider::ytdlp::YtDlpProvider;
use oriel::search::SearchQuery;

const FIXTURE: &str = "schema_version\t1\n\
source_url\thttps://youtu.be/dQw4w9WgXcQ\n\
title\tEngine fixture\n\
creator\tOriel\n\
duration_ms\t10000\n\
language\ten\n\
caption_provenance\tmanual\n\
cue\t0\t10000\tThe cache keeps timestamped evidence reusable.\n";

const GENERATED: &str = "schema_version\t1\n\
source_url\thttps://youtu.be/dQw4w9WgXcQ\n\
title\tTranscript fixture\n\
creator\tOriel\n\
duration_ms\t30000\n\
language\ten\n\
caption_provenance\tgenerated\n\
cue\t0\t10000\tThe question is how small a set can be.\n\
cue\t10000\t20000\tA needle rotates inside a shrinking area.\n\
cue\t20000\t30000\tThe answer turned out to depend on dimension.\n";

fn fixture_cache() -> CacheReport {
    CacheReport {
        status: CacheStatus::Fixture,
        source_changed: None,
    }
}

#[test]
fn a_transcript_carries_every_passage_in_order_with_citable_timestamps() {
    let compiled = compile_fixture(GENERATED).expect("fixture should compile");
    let packet = transcript_packet(&compiled, fixture_cache());

    assert_eq!(
        packet.passages.iter().map(|passage| passage.start_ms).collect::<Vec<_>>(),
        [0, 10_000, 20_000]
    );
    assert_eq!(packet.passages[1].text, "A needle rotates inside a shrinking area.");
    assert!(packet.passages[1].timestamp_url.ends_with("&t=10s"));
    assert_eq!(packet.passages[1].timestamp_label, "0:10");
}

#[test]
fn a_generated_transcript_warns_that_its_wording_was_machine_heard() {
    let compiled = compile_fixture(GENERATED).expect("fixture should compile");
    let packet = transcript_packet(&compiled, fixture_cache());

    assert_eq!(packet.caption_provenance, CaptionProvenance::Generated);
    assert!(packet.warnings.contains(&"captions_machine_generated"));
}

#[test]
fn a_manual_transcript_carries_no_mishearing_warning() {
    let compiled = compile_fixture(FIXTURE).expect("fixture should compile");
    let packet = transcript_packet(&compiled, fixture_cache());

    assert_eq!(packet.caption_provenance, CaptionProvenance::Manual);
    assert!(!packet.warnings.contains(&"captions_machine_generated"));
}

#[test]
fn generated_search_evidence_warns_that_its_wording_was_machine_heard() {
    let compiled = compile_fixture(GENERATED).expect("fixture should compile");
    let packet = evidence_packet(
        &compiled,
        &SearchQuery::new("needle rotates".to_owned()),
        fixture_cache(),
    )
    .expect("search should work");

    assert_eq!(packet.moments[0].caption_provenance, CaptionProvenance::Generated);
    assert!(packet.warnings.contains(&"captions_machine_generated"));
}

#[test]
fn packet_preserves_timestamp_and_cache_provenance() {
    let compiled = compile_fixture(FIXTURE).expect("fixture should compile");
    let packet = evidence_packet(
        &compiled,
        &SearchQuery::new("timestamped evidence".to_owned()),
        CacheReport {
            status: CacheStatus::Fixture,
            source_changed: None,
        },
    )
    .expect("search should work");

    assert_eq!(packet.moments[0].start_ms, 0);
    assert_eq!(packet.moments[0].timestamp_label, "0:00");
    assert_eq!(packet.cache.status, CacheStatus::Fixture);
    assert_eq!(packet.moments[0].evidence_kind, "transcript");
}

#[test]
fn timestamp_labels_are_canonical_for_short_and_long_sources() {
    assert_eq!(timestamp_label(201_999), "3:21");
    assert_eq!(timestamp_label(3_661_000), "1:01:01");
}

#[test]
fn refresh_without_a_cache_fails_before_provider_access() {
    let engine = SourceEngine::with_provider(None, YtDlpProvider::new("missing-yt-dlp".to_owned()));
    let error = engine
        .begin("https://youtu.be/dQw4w9WgXcQ", true)
        .expect_err("refresh should require a cache");

    assert_eq!(error.message(), "source refresh requires a configured cache");
}

#[test]
fn a_refresh_with_a_cache_resolves_the_source() {
    let engine = SourceEngine::new(Some("/tmp/cache".to_owned()));
    let source = engine
        .begin("https://youtu.be/dQw4w9WgXcQ?si=x", true)
        .expect("source should resolve");
    assert_eq!(source.source_id, "dQw4w9WgXcQ");
    assert!(matches!(
        engine.begin("not a url", false),
        Err(EngineError::Source(oriel::source::SourceError::MalformedUrl))
    ));
}

#[test]
fn a_cached_source_is_a_hit_unless_refreshed() {
    let engine = SourceEngine::new(Some("/tmp/cache".to_owned()));
    let compiled = compile_fixture(FIXTURE).expect("fixture should compile");
    match engine.plan(false, Some(compiled.clone())) {
        Resolution::Cached(c, report) => {
            assert_eq!(c, compiled);
            assert_eq!(report.status, CacheStatus::Hit);
            assert_eq!(report.source_changed, None);
        }
        Resolution::Acquire => panic!("a cached source should be served"),
    }
    assert!(matches!(engine.plan(true, Some(compiled)), Resolution::Acquire));
    assert!(matches!(engine.plan(false, None), Resolution::Acquire));
}

#[test]
fn an_acquired_source_reports_how_the_cache_was_used() {
    let cached = SourceEngine::new(Some("/tmp/cache".to_owned()));
    let uncached = SourceEngine::new(None);
    let first = compile_fixture(FIXTURE).expect("fixture should compile");
    let second = compile_fixture(GENERATED).expect("fixture should compile");

    let refreshed = cached.acquired_report(true, &Some(first.clone()), &second);
    assert_eq!(refreshed.status, CacheStatus::Refreshed);
    assert_eq!(refreshed.source_changed, Some(true));
    let unchanged = cached.acquired_report(true, &Some(first.clone()), &first);
    assert_eq!(unchanged.source_changed, Some(false));
    let fresh = cached.acquired_report(true, &None, &first);
    assert_eq!(fresh.source_changed, None);
    assert_eq!(cached.acquired_report(false, &None, &first).status, CacheStatus::Miss);
    assert_eq!(uncached.acquired_report(false, &None, &first).status, CacheStatus::Disabled);
}

#[test]
fn a_resolved_source_is_searched_and_read_the_same_way_on_every_surface() {
    let engine = SourceEngine::new(None);
    let compiled = compile_fixture(GENERATED).expect("fixture should compile");
    let packet = engine
        .search_source(&compiled, fixture_cache(), &SearchQuery::new("needle".to_owned()))
        .expect("search should work");
    assert_eq!(packet.moments.len(), 1);
    assert_eq!(packet.moments[0].start_ms, 10_000);
    assert_eq!(
        packet.moments[0].timestamp_url,
        "https://www.youtube.com/watch?v=dQw4w9WgXcQ&t=10s"
    );
    let read = engine.read_source(&compiled, fixture_cache());
    assert_eq!(read.passage_count, 3);

    let mut zero = SearchQuery::new("needle".to_owned());
    zero.limit = 0;
    assert!(matches!(
        engine.search_source(&compiled, fixture_cache(), &zero),
        Err(EngineError::Search(oriel::search::SearchError::ZeroLimit))
    ));
}

#[test]
fn long_timestamps_keep_two_digit_minutes_and_seconds() {
    assert_eq!(timestamp_label(0), "0:00");
    assert_eq!(timestamp_label(59_999), "0:59");
    assert_eq!(timestamp_label(3_600_000), "1:00:00");
    assert_eq!(timestamp_label(36_000_000 + 65_000), "10:01:05");
}

#[test]
fn a_bounded_query_is_answered_as_the_search_answers_it() {
    let engine = SourceEngine::new(None);
    let compiled = compile_fixture(GENERATED).expect("fixture should compile");
    let query = SearchQuery::new("needle".to_owned());
    let bounded = engine
        .search_source_within_bounds(&compiled, fixture_cache(), &query)
        .expect("the query is within bounds");
    assert_eq!(bounded, engine.search_source(&compiled, fixture_cache(), &query));
    assert!(oriel::search::query_within_bounds(&query));
    let long = SearchQuery::new("word ".repeat(100_000));
    assert!(oriel::search::query_within_bounds(&long));
}
