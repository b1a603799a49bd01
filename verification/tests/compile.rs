use sha2::Digest;
use oriel::compile::{compile_source, verify_compiled_source, AcquiredCue, AcquiredSource, CompileError};
use oriel::evidence::{
    AcquisitionProvenance, CaptionProvenance, Coverage, SourceMetadata, ToolProvenance,
    TranscriptProvenance,
};
use oriel::source::canonicalise_source;

fn acquired_source() -> AcquiredSource {
    AcquiredSource {
        source: canonicalise_source("https://youtu.be/dQw4w9WgXcQ").expect("source should be valid"),
        metadata: SourceMetadata {
            title: "Evidence source".to_owned(),
            creator: "Oriel".to_owned(),
            duration_ms: 10_000,
        },
        transcript: TranscriptProvenance {
            language: "en".to_owned(),
            captions: CaptionProvenance::Manual,
        },
        cues: vec![AcquiredCue {
            start_ms: 0,
            end_ms: 10_000,
            text: "A timestamped cue".to_owned(),
        }],
        coverage: Coverage {
            metadata: true,
            transcript_start_ms: 0,
            transcript_end_ms: 10_000,
            transcript_complete: true,
            visuals_processed: false,
        },
        acquisition: AcquisitionProvenance {
            adapter: "fixture".to_owned(),
            source_format: "fixture_v1".to_owned(),
            tool: None,
        },
    }
}

#[test]
fn version_is_stable_and_semantically_framed() {
    let first = compile_source(acquired_source()).expect("source should compile");
    let second = compile_source(acquired_source()).expect("source should compile");
    assert_eq!(first.source_version, second.source_version);
    assert!(first.source_version.starts_with("source-v1:sha256:"));
    assert_eq!(first.source_version.len(), 81);

    let mut changed = acquired_source();
    changed.cues[0].text.push('!');
    let changed = compile_source(changed).expect("changed source should compile");
    assert_ne!(first.source_version, changed.source_version);
}

#[test]
fn acquisition_tool_version_does_not_invalidate_evidence() {
    let first = compile_source(acquired_source()).expect("source should compile");
    let mut changed = acquired_source();
    changed.acquisition.tool = Some(ToolProvenance {
        name: "yt-dlp".to_owned(),
        version: "future".to_owned(),
    });
    let changed = compile_source(changed).expect("source should compile");
    assert_eq!(first.source_version, changed.source_version);
}

#[test]
fn rejects_invalid_coverage_and_cues() {
    let mut invalid = acquired_source();
    invalid.coverage.transcript_end_ms = 10_001;
    assert_eq!(compile_source(invalid), Err(CompileError::InvalidCoverage));

    let mut invalid = acquired_source();
    invalid.cues[0].end_ms = 0;
    assert!(matches!(compile_source(invalid), Err(CompileError::InvalidCue { .. })));
}

#[test]
fn rejects_tampered_compiled_sources() {
    let compiled = compile_source(acquired_source()).expect("source should compile");
    verify_compiled_source(&compiled).expect("compiled source should verify");

    let mut tampered = compiled;
    tampered.evidence[0].text.push_str(" changed");
    assert_eq!(
        verify_compiled_source(&tampered),
        Err(CompileError::InconsistentCompiledSource)
    );
}

#[test]
fn compiled_evidence_is_identified_by_source_and_index() {
    let mut acquired = acquired_source();
    acquired.cues[0].end_ms = 4_000;
    acquired.cues.push(AcquiredCue {
        start_ms: 4_000,
        end_ms: 9_000,
        text: "A second cue".to_owned(),
    });
    let compiled = compile_source(acquired).expect("source should compile");
    assert_eq!(compiled.evidence.len(), 2);
    assert_eq!(compiled.evidence[0].id, "dQw4w9WgXcQ:0");
    assert_eq!(compiled.evidence[1].id, "dQw4w9WgXcQ:1");
    assert_eq!(compiled.evidence[1].text, "A second cue");
    assert_eq!(compiled.evidence[1].transcript.language, "en");
}

#[test]
fn a_compiled_source_always_verifies() {
    let compiled = compile_source(acquired_source()).expect("source should compile");
    assert_eq!(verify_compiled_source(&compiled), Ok(()));
}

#[test]
fn the_version_hashes_the_framed_evidence_with_sha256() {
    let compiled = compile_source(acquired_source()).expect("source should compile");
    let digest = &compiled.source_version["source-v1:sha256:".len()..];
    assert_eq!(digest.len(), 64);
    assert!(digest.bytes().all(|b| b.is_ascii_digit() || (b'a'..=b'f').contains(&b)));
    let mut other = acquired_source();
    other.metadata.title = "Evidence source ".to_owned();
    let other = compile_source(other).expect("source should compile");
    assert_ne!(compiled.source_version, other.source_version);
}

#[test]
fn each_metadata_and_cue_error_is_reported() {
    let mut blank = acquired_source();
    blank.metadata.title = "  ".to_owned();
    assert_eq!(compile_source(blank), Err(CompileError::EmptyMetadata("title")));

    let mut no_creator = acquired_source();
    no_creator.metadata.creator = String::new();
    assert_eq!(compile_source(no_creator), Err(CompileError::EmptyMetadata("creator")));

    let mut zero = acquired_source();
    zero.metadata.duration_ms = 0;
    assert_eq!(compile_source(zero), Err(CompileError::InvalidDuration));

    let mut empty = acquired_source();
    empty.cues.clear();
    assert_eq!(compile_source(empty), Err(CompileError::NoEvidence));

    let mut blank_cue = acquired_source();
    blank_cue.cues[0].text = " ".to_owned();
    assert!(matches!(compile_source(blank_cue), Err(CompileError::InvalidCue { index: 0, .. })));
}

#[test]
fn compile_errors_read_as_sentences() {
    assert_eq!(
        CompileError::EmptyMetadata("title").message(),
        "source metadata 'title' is empty"
    );
    assert_eq!(
        CompileError::InvalidCue { index: 12, reason: "has no text" }.message(),
        "source cue 12 has no text"
    );
    assert_eq!(
        CompileError::InconsistentCompiledSource.message(),
        "compiled source fields are internally inconsistent"
    );
}

#[test]
fn rolling_cues_group_into_passages_by_start() {
    let cues = vec![
        AcquiredCue { start_ms: 0, end_ms: 12_000, text: "a".to_owned() },
        AcquiredCue { start_ms: 10_000, end_ms: 22_000, text: "b".to_owned() },
        AcquiredCue { start_ms: 30_000, end_ms: 31_000, text: "c".to_owned() },
    ];
    let passages = oriel::compile::segment_cues(cues, 30_000);
    assert_eq!(passages.len(), 2);
    assert_eq!(passages[0].text, "a b");
    assert_eq!(passages[0].end_ms, 22_000);
    assert_eq!(passages[1].start_ms, 30_000);
    assert_eq!(passages[1].text, "c");
}

fn framed(text: &str, out: &mut Vec<u8>) {
    out.extend_from_slice(&(text.len() as u64).to_be_bytes());
    out.extend_from_slice(text.as_bytes());
}

#[test]
fn the_version_is_the_sha256_of_the_framed_fields() {
    let compiled = compile_source(acquired_source()).expect("source should compile");
    let mut preimage = Vec::new();
    framed("oriel.compiled-source.v1", &mut preimage);
    framed("youtube", &mut preimage);
    framed("dQw4w9WgXcQ", &mut preimage);
    framed("Evidence source", &mut preimage);
    framed("Oriel", &mut preimage);
    preimage.extend_from_slice(&10_000u64.to_be_bytes());
    framed("en", &mut preimage);
    framed("manual", &mut preimage);
    preimage.extend_from_slice(&0u64.to_be_bytes());
    preimage.extend_from_slice(&10_000u64.to_be_bytes());
    preimage.push(1);
    preimage.push(0);
    preimage.extend_from_slice(&0u64.to_be_bytes());
    preimage.extend_from_slice(&10_000u64.to_be_bytes());
    framed("A timestamped cue", &mut preimage);
    let digest: String = sha2::Sha256::digest(&preimage).iter().map(|b| format!("{b:02x}")).collect();
    assert_eq!(compiled.source_version, format!("source-v1:sha256:{digest}"));
}

#[test]
fn adjacent_fields_cannot_blur_into_the_same_version() {
    let mut first = acquired_source();
    first.metadata.title = "ab".to_owned();
    first.metadata.creator = "c".to_owned();
    let mut second = acquired_source();
    second.metadata.title = "a".to_owned();
    second.metadata.creator = "bc".to_owned();
    let first = compile_source(first).expect("source should compile");
    let second = compile_source(second).expect("source should compile");
    assert_ne!(first.source_version, second.source_version);
}

#[test]
fn passages_keep_every_word_and_sound_timing() {
    let cues = vec![
        AcquiredCue { start_ms: 0, end_ms: 40_000, text: "one two".to_owned() },
        AcquiredCue { start_ms: 5_000, end_ms: 6_000, text: "three".to_owned() },
        AcquiredCue { start_ms: 31_000, end_ms: 32_000, text: "four".to_owned() },
    ];
    let joined = |cs: &[AcquiredCue]| cs.iter().map(|c| c.text.as_str()).collect::<Vec<_>>().join(" ");
    let passages = oriel::compile::segment_cues(cues.clone(), 30_000);
    assert_eq!(joined(&passages), joined(&cues));
    assert_eq!(passages[0].end_ms, 40_000);
    assert!(passages.iter().all(|p| p.start_ms < p.end_ms));
}

#[test]
fn the_compiler_leaves_cue_ends_to_the_acquisition() {
    let mut late = acquired_source();
    late.cues[0].end_ms = 10_001;
    let compiled = compile_source(late).expect("a cue may end past the duration");
    assert_eq!(compiled.evidence[0].end_ms, 10_001);
    assert_eq!(verify_compiled_source(&compiled), Ok(()));
}

#[test]
fn a_compiled_fixture_revalidates_under_its_own_version() {
    let fixture = oriel::fixture::compile_fixture(
        "schema_version\t1\nsource_url\thttps://youtu.be/dQw4w9WgXcQ\ntitle\tT\ncreator\tC\nduration_ms\t10\nlanguage\ten\ncaption_provenance\tmanual\ncue\t0\t10\tx\n",
    )
    .expect("fixture should compile");
    assert!(fixture.source_version.starts_with("fixture-fnv1a64:"));
    assert_eq!(verify_compiled_source(&fixture), Ok(()));
    let mut relabelled = fixture.clone();
    relabelled.source_version = "fixture-fnv1a64:0000000000000000".to_owned();
    assert_eq!(verify_compiled_source(&relabelled), Err(CompileError::InconsistentCompiledSource));
}
