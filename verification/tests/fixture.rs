use oriel::evidence::CaptionProvenance;
use oriel::fixture::{compile_fixture, FixtureError};

const VALID_FIXTURE: &str = "schema_version\t1\n\
source_url\thttps://youtu.be/dQw4w9WgXcQ\n\
title\tFixture evidence\n\
creator\tOriel\n\
duration_ms\t10000\n\
language\ten\n\
caption_provenance\tmanual\n\
cue\t0\t5000\tEvidence must keep its timestamp.\n\
cue\t5000\t10000\tInterpretation must remain separate.\n";

#[test]
fn compiles_timestamped_evidence_and_coverage() {
    let compiled = compile_fixture(VALID_FIXTURE).expect("fixture should compile");

    assert_eq!(compiled.source.source_id, "dQw4w9WgXcQ");
    assert_eq!(compiled.evidence.len(), 2);
    assert_eq!(compiled.evidence[0].start_ms, 0);
    assert_eq!(compiled.evidence[0].end_ms, 5_000);
    assert_eq!(compiled.evidence[0].transcript.captions, CaptionProvenance::Manual);
    assert!(compiled.coverage.transcript_complete);
    assert!(!compiled.coverage.visuals_processed);
    assert!(compiled.source_version.starts_with("fixture-fnv1a64:"));
}

#[test]
fn rejects_out_of_order_or_out_of_range_cues() {
    let out_of_order = VALID_FIXTURE
        .replace("cue\t0\t5000", "cue\t4000\t5000")
        .replace("cue\t5000\t10000", "cue\t3000\t10000");
    assert!(matches!(
        compile_fixture(&out_of_order),
        Err(FixtureError::InvalidCue {
            reason: "is out of source order",
            ..
        })
    ));

    let out_of_range = VALID_FIXTURE.replace("cue\t5000\t10000", "cue\t5000\t10001");
    assert!(matches!(
        compile_fixture(&out_of_range),
        Err(FixtureError::InvalidCue {
            reason: "ends after the source duration",
            ..
        })
    ));
}

#[test]
fn rejects_unknown_fields_and_empty_evidence() {
    let unknown = VALID_FIXTURE.replace("creator\t", "channel\t");
    assert!(matches!(compile_fixture(&unknown), Err(FixtureError::UnknownField { .. })));

    let empty = VALID_FIXTURE
        .lines()
        .filter(|line| !line.starts_with("cue\t"))
        .collect::<Vec<_>>()
        .join("\n");
    assert_eq!(compile_fixture(&empty), Err(FixtureError::NoEvidence));
}

#[test]
fn fixture_versions_are_stable_and_depend_on_the_evidence() {
    let first = compile_fixture(VALID_FIXTURE).expect("fixture should compile");
    let again = compile_fixture(VALID_FIXTURE).expect("fixture should compile");
    assert_eq!(first.source_version, again.source_version);
    assert_eq!(first.source_version.len(), "fixture-fnv1a64:".len() + 16);
    let changed = compile_fixture(&VALID_FIXTURE.replace("separate.", "separate!"))
        .expect("fixture should compile");
    assert_ne!(first.source_version, changed.source_version);
}

#[test]
fn each_fixture_error_names_its_line_and_field() {
    let duplicate = VALID_FIXTURE.replace("creator\tOriel\n", "creator\tOriel\ncreator\tAgain\n");
    assert_eq!(
        compile_fixture(&duplicate),
        Err(FixtureError::DuplicateField { line: 5, field: "creator".to_owned() })
    );
    let missing = VALID_FIXTURE.replace("title\tFixture evidence\n", "");
    assert_eq!(compile_fixture(&missing), Err(FixtureError::MissingField("title")));
    let schema = VALID_FIXTURE.replace("schema_version\t1", "schema_version\t2");
    assert_eq!(compile_fixture(&schema), Err(FixtureError::UnsupportedSchema("2".to_owned())));
    let provenance = VALID_FIXTURE.replace("\tmanual", "\tguessed");
    assert_eq!(
        compile_fixture(&provenance),
        Err(FixtureError::InvalidCaptionProvenance("guessed".to_owned()))
    );
    let number = VALID_FIXTURE.replace("duration_ms\t10000", "duration_ms\tten");
    assert!(matches!(compile_fixture(&number), Err(FixtureError::InvalidNumber { .. })));
    let malformed = format!("{VALID_FIXTURE}cue\t1\n");
    assert_eq!(compile_fixture(&malformed), Err(FixtureError::InvalidLine { line: 10 }));
}

#[test]
fn fixture_errors_read_as_sentences() {
    assert_eq!(
        FixtureError::UnknownField { line: 4, field: "channel".to_owned() }.message(),
        "fixture line 4 has unknown field 'channel'"
    );
    assert_eq!(FixtureError::NoEvidence.message(), "fixture contains no caption evidence");
    assert_eq!(
        FixtureError::InvalidSource(oriel::source::SourceError::MalformedUrl).message(),
        "fixture source is invalid: the source URL is malformed"
    );
}
