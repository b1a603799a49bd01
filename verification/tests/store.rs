use oriel::fixture::compile_fixture;
use oriel::source::canonicalise_source;
use oriel::store::{
    accept_stored, check_cache_file, existing_version, is_digest, pointer_digest, pointer_key,
    pointer_targets, race_outcome, save_digest, verify_stored, version_digest, ExistingVersion,
    FileSourceStore, SaveOutcome, StoreError,
};

const FIXTURE: &str = "schema_version\t1\n\
source_url\thttps://youtu.be/dQw4w9WgXcQ\n\
title\tCached evidence\n\
creator\tOriel\n\
duration_ms\t10000\n\
language\ten\n\
caption_provenance\tmanual\n\
cue\t0\t10000\tImmutable timestamped evidence.\n";

fn compiled() -> oriel::evidence::CompiledSource {
    let fixture = compile_fixture(FIXTURE).expect("fixture should compile");
    oriel::compile::compile_source(oriel::compile::AcquiredSource {
        source: fixture.source.clone(),
        metadata: fixture.metadata.clone(),
        transcript: fixture.evidence[0].transcript.clone(),
        cues: fixture
            .evidence
            .iter()
            .map(|e| oriel::compile::AcquiredCue { start_ms: e.start_ms, end_ms: e.end_ms, text: e.text.clone() })
            .collect(),
        coverage: fixture.coverage,
        acquisition: fixture.acquisition.clone(),
    })
    .expect("source should compile")
}

#[test]
fn pointer_keys_are_language_tags_or_the_default() {
    assert_eq!(pointer_key(None), Ok("default".to_owned()));
    assert_eq!(pointer_key(Some("zh-Hans")), Ok("zh-Hans".to_owned()));
    assert_eq!(pointer_key(Some("default")), Err(StoreError::InvalidPointer));
    assert_eq!(pointer_key(Some("../x")), Err(StoreError::InvalidPointer));
    assert_eq!(pointer_key(Some("")), Err(StoreError::InvalidPointer));
    assert_eq!(pointer_key(Some(&"a".repeat(65))), Err(StoreError::InvalidPointer));
}

#[test]
fn digests_are_sixty_four_lowercase_hex_digits() {
    let digest = "0123456789abcdef".repeat(4);
    assert!(is_digest(&digest));
    assert!(!is_digest(&digest.to_uppercase()));
    assert!(!is_digest(&digest[1..]));
    assert_eq!(version_digest(&format!("source-v1:sha256:{digest}")), Some(digest.clone()));
    assert_eq!(version_digest(&format!("fixture-fnv1a64:{digest}")), None);
}

#[test]
fn rejects_tampered_pointers() {
    let digest = "0123456789abcdef".repeat(4);
    assert_eq!(pointer_digest(format!("{digest}\n").as_bytes()), Ok(digest.clone()));
    assert_eq!(pointer_digest(b"../../unexpected\n"), Err(StoreError::InvalidPointer));
    assert_eq!(pointer_digest(&[0xff, 0xfe]), Err(StoreError::InvalidPointer));
}

#[test]
fn a_saved_source_is_served_back_for_its_language_and_the_default() {
    let compiled = compiled();
    let digest = save_digest(&compiled).expect("source should be savable");
    assert_eq!(
        pointer_targets(&compiled, true),
        Ok(vec!["en".to_owned(), "default".to_owned()])
    );
    assert_eq!(pointer_targets(&compiled, false), Ok(vec!["en".to_owned()]));
    assert_eq!(
        accept_stored(2, compiled.clone(), &compiled.source, Some("en"), &digest),
        Ok(Some(compiled.clone()))
    );
    assert_eq!(
        accept_stored(2, compiled.clone(), &compiled.source, None, &digest),
        Ok(Some(compiled.clone()))
    );
    assert_eq!(accept_stored(1, compiled.clone(), &compiled.source, None, &digest), Ok(None));
    assert_eq!(
        accept_stored(3, compiled.clone(), &compiled.source, None, &digest),
        Err(StoreError::UnsupportedSchema(3))
    );
}

#[test]
fn a_stored_source_must_match_the_request_that_found_it() {
    let compiled = compiled();
    let digest = save_digest(&compiled).expect("source should be savable");
    assert_eq!(verify_stored(&compiled, &compiled.source, Some("fr"), &digest), Err(StoreError::InvalidStoredSource));
    let other = canonicalise_source("https://youtu.be/Ori3lDemo01").expect("source should be valid");
    assert_eq!(verify_stored(&compiled, &other, None, &digest), Err(StoreError::InvalidStoredSource));
    assert_eq!(
        verify_stored(&compiled, &compiled.source, None, &"0".repeat(64)),
        Err(StoreError::InvalidStoredSource)
    );
    let mut tampered = compiled.clone();
    tampered.evidence[0].text.push('!');
    assert_eq!(verify_stored(&tampered, &compiled.source, None, &digest), Err(StoreError::InvalidStoredSource));
}

#[test]
fn existing_versions_are_reused_upgraded_or_refused() {
    let compiled = compiled();
    let mut inconsistent = compiled.clone();
    inconsistent.acquisition.adapter = "different-adapter".to_owned();
    assert_eq!(existing_version(2, &compiled, &compiled), Ok(ExistingVersion::Reuse));
    assert_eq!(existing_version(2, &compiled, &inconsistent), Err(StoreError::InvalidStoredSource));
    assert_eq!(existing_version(1, &compiled, &compiled), Ok(ExistingVersion::Replace));
    assert_eq!(existing_version(1, &compiled, &inconsistent), Err(StoreError::InvalidStoredSource));
    assert_eq!(existing_version(3, &compiled, &compiled), Err(StoreError::UnsupportedSchema(3)));
    assert_eq!(race_outcome(2, &compiled, &compiled), Ok(SaveOutcome::ReusedVersion));
    assert_eq!(race_outcome(1, &compiled, &compiled), Err(StoreError::InvalidStoredSource));
}

#[test]
fn cache_files_are_bounded_regular_files() {
    assert_eq!(check_cache_file(true, 128, 128), Ok(()));
    assert_eq!(check_cache_file(true, 129, 128), Err(StoreError::InvalidStoredSource));
    assert_eq!(check_cache_file(false, 1, 128), Err(StoreError::InvalidStoredSource));
}

#[test]
fn the_cache_is_laid_out_by_provider_source_and_track() {
    let store = FileSourceStore::new("/cache".to_owned());
    let source = compiled().source;
    assert_eq!(store.source_dir(&source), ["/cache", "youtube", "dQw4w9WgXcQ"]);
    assert_eq!(
        store.pointer_path(&source, "en"),
        ["/cache", "youtube", "dQw4w9WgXcQ", "tracks", "en.latest"]
    );
    assert_eq!(
        store.version_path(&source, "abc"),
        ["/cache", "youtube", "dQw4w9WgXcQ", "versions", "abc.json"]
    );
}

#[test]
fn store_errors_read_as_sentences() {
    assert_eq!(StoreError::UnsupportedSchema(3).message(), "cache schema version 3 is unsupported");
    assert_eq!(StoreError::Persist("pointer").message(), "persisting cache pointer failed");
}

#[test]
fn a_compiled_fixture_is_cached_and_served_back() {
    let fixture = compile_fixture(FIXTURE).expect("fixture should compile");
    let digest = save_digest(&fixture).expect("fixture should be savable");
    assert_eq!(digest.len(), 16);
    assert_eq!(
        fixture.source_version,
        format!("fixture-fnv1a64:{digest}")
    );
    assert_eq!(pointer_digest(format!("{digest}\n").as_bytes()), Ok(digest.clone()));
    assert_eq!(
        accept_stored(2, fixture.clone(), &fixture.source, Some("en"), &digest),
        Ok(Some(fixture.clone()))
    );
    assert_eq!(
        accept_stored(2, fixture.clone(), &fixture.source, None, &digest),
        Ok(Some(fixture.clone()))
    );
    assert_eq!(existing_version(2, &fixture, &fixture), Ok(ExistingVersion::Reuse));
    let mut tampered = fixture.clone();
    tampered.evidence[0].text.push('!');
    assert_eq!(
        verify_stored(&tampered, &fixture.source, None, &digest),
        Err(StoreError::InvalidStoredSource)
    );
}

#[test]
fn a_legacy_entry_is_a_miss_then_rewritten_and_served() {
    let compiled = compiled();
    let digest = save_digest(&compiled).expect("source should be savable");
    assert_eq!(accept_stored(1, compiled.clone(), &compiled.source, Some("en"), &digest), Ok(None));
    assert_eq!(existing_version(1, &compiled, &compiled), Ok(ExistingVersion::Replace));
    assert_eq!(
        accept_stored(2, compiled.clone(), &compiled.source, Some("en"), &digest),
        Ok(Some(compiled.clone()))
    );
}

#[test]
fn a_save_that_loses_the_race_to_another_source_is_refused() {
    let compiled = compiled();
    let mut other = compiled.clone();
    other.metadata.title = "Another title".to_owned();
    assert_eq!(race_outcome(2, &other, &compiled), Err(StoreError::InvalidStoredSource));
    assert_eq!(race_outcome(2, &compiled, &compiled), Ok(SaveOutcome::ReusedVersion));
}
