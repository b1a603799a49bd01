use oriel::compile::AcquiredCue;
use oriel::evidence::CaptionProvenance;
use oriel::provider::ytdlp::{
    available_languages, caption_arguments, caption_artifact, check_metadata, check_output,
    classify_failure, compile_acquisition, ingest_request, metadata_arguments, parse_json3,
    parse_json3_passages, select_caption, settle, spawn_error, stage_check, stage_outcome,
    validate_language, CaptionTracks, Json3Caption, Json3Event, ProviderError,
    ProviderFailureKind, SelectedCaption, SelectedCaptionKind, YtDlpMetadata,
};
use oriel::source::{canonicalise_source, CanonicalSource};

fn source() -> CanonicalSource {
    canonicalise_source("https://youtu.be/dQw4w9WgXcQ").expect("source should be valid")
}

fn tracks(language: &str, extensions: &[&str]) -> CaptionTracks {
    CaptionTracks {
        language: language.to_owned(),
        extensions: extensions.iter().map(|e| (*e).to_owned()).collect(),
    }
}

fn metadata() -> YtDlpMetadata {
    YtDlpMetadata {
        id: "dQw4w9WgXcQ".to_owned(),
        title: "Evidence source".to_owned(),
        uploader: Some("Oriel".to_owned()),
        channel: Some("Oriel channel".to_owned()),
        webpage_url: "https://www.youtube.com/watch?v=dQw4w9WgXcQ".to_owned(),
        availability: Some("public".to_owned()),
        live_status: Some("not_live".to_owned()),
        subtitles: vec![tracks("en", &["json3"])],
        automatic_captions: vec![tracks("en", &["json3"]), tracks("fr", &["json3"])],
        version: Some("2026.07.04".to_owned()),
    }
}

fn event(start: u64, duration: u64, text: &[&str]) -> Json3Event {
    Json3Event {
        start_ms: Some(start),
        duration_ms: Some(duration),
        append: None,
        segs: Some(text.iter().map(|t| (*t).to_owned()).collect()),
    }
}

#[test]
fn metadata_identity_is_verified() {
    let parsed = check_metadata(metadata(), &source()).expect("metadata should validate");
    assert_eq!(parsed.id, "dQw4w9WgXcQ");

    let wrong = canonicalise_source("https://youtu.be/Ori3lDemo01").expect("other source should be valid");
    assert!(matches!(check_metadata(metadata(), &wrong), Err(ProviderError::IdentityMismatch)));
}

#[test]
fn exact_manual_caption_wins_over_generated() {
    let selected = select_caption(&metadata(), Some("en")).expect("caption should resolve");
    assert_eq!(selected.language, "en");
    assert_eq!(selected.provenance(), CaptionProvenance::Manual);
}

#[test]
fn unavailable_and_non_json_tracks_are_distinct() {
    assert!(matches!(
        select_caption(&metadata(), Some("de")),
        Err(ProviderError::CaptionsUnavailable { .. })
    ));

    let mut metadata = metadata();
    metadata.subtitles = vec![tracks("de", &["vtt"])];
    assert!(matches!(
        select_caption(&metadata, Some("de")),
        Err(ProviderError::CaptionFormatUnavailable(_))
    ));
}

#[test]
fn json3_preserves_timing_and_concatenates_segments() {
    let cues = parse_json3(&Json3Caption {
        events: vec![
            event(1000, 2000, &["hello ", "world"]),
            Json3Event { start_ms: Some(3000), duration_ms: Some(1000), append: None, segs: None },
            event(4000, 2000, &["next"]),
        ],
    })
    .expect("captions should parse");
    assert_eq!(cues.len(), 2);
    assert_eq!(cues[0].start_ms, 1_000);
    assert_eq!(cues[0].end_ms, 3_000);
    assert_eq!(cues[0].text, "hello world");
}

#[test]
fn rolling_caption_fragments_become_readable_passages() {
    let passages = parse_json3_passages(&Json3Caption {
        events: vec![
            event(0, 12000, &["There's a deceptively simple problem"]),
            event(10000, 12000, &["that's tormented mathematicians for 50"]),
            event(20000, 12000, &["years. Suppose you have a needle."]),
            event(30000, 12000, &["What's the smallest area you can sweep?"]),
        ],
    })
    .expect("captions should parse");

    assert_eq!(passages.len(), 2);
    assert_eq!(passages[0].start_ms, 0);
    assert_eq!(passages[0].end_ms, 32_000);
    assert_eq!(
        passages[0].text,
        "There's a deceptively simple problem that's tormented mathematicians for 50 \
years. Suppose you have a needle."
    );
    assert_eq!(passages[1].start_ms, 30_000);
    assert_eq!(passages[1].text, "What's the smallest area you can sweep?");
}

#[test]
fn json3_append_events_extend_the_previous_cue() {
    let cues = parse_json3(&Json3Caption {
        events: vec![
            event(1000, 1000, &["hello "]),
            Json3Event {
                start_ms: Some(2000),
                duration_ms: Some(1000),
                append: Some(1),
                segs: Some(vec!["world".to_owned()]),
            },
        ],
    })
    .expect("captions should parse");
    assert_eq!(cues.len(), 1);
    assert_eq!(cues[0].text, "hello world");
    assert_eq!(cues[0].end_ms, 3_000);
}

#[test]
fn arguments_disable_ambient_state_and_end_options() {
    let metadata = metadata_arguments(&source().canonical_url);
    assert!(metadata.contains(&"--ignore-config".to_owned()));
    assert!(metadata.contains(&"--no-plugin-dirs".to_owned()));
    assert!(metadata.contains(&"--no-cookies".to_owned()));
    assert_eq!(metadata[metadata.len() - 2], "--");

    let selected = SelectedCaption {
        language: "en".to_owned(),
        kind: SelectedCaptionKind::Manual,
    };
    let captions = caption_arguments(&source(), &selected, "/tmp/oriel-test");
    assert!(captions.contains(&"--write-subs".to_owned()));
    assert!(captions.contains(&"^en$".to_owned()));
    assert_eq!(captions[captions.len() - 2], "--");
}

#[test]
fn language_and_failure_classification_are_bounded() {
    assert!(validate_language("zh-Hans").is_ok());
    assert!(validate_language("en.*").is_err());
    assert_eq!(classify_failure(b"ERROR: Private video. Sign in"), ProviderFailureKind::SourcePrivate);
    assert_eq!(classify_failure(b"ERROR: Video unavailable"), ProviderFailureKind::SourceUnavailable);
}

#[test]
fn json3_refuses_untimed_and_empty_captions() {
    let untimed = Json3Caption {
        events: vec![Json3Event { start_ms: None, duration_ms: Some(1), append: None, segs: Some(vec!["x".to_owned()]) }],
    };
    assert_eq!(
        parse_json3(&untimed),
        Err(ProviderError::InvalidCaptions("contain an untimed text event"))
    );
    let zero = Json3Caption { events: vec![event(0, 0, &["x"])] };
    assert_eq!(
        parse_json3(&zero),
        Err(ProviderError::InvalidCaptions("contain a text event without duration"))
    );
    let overflow = Json3Caption { events: vec![event(u64::MAX, 1, &["x"])] };
    assert_eq!(parse_json3(&overflow), Err(ProviderError::InvalidCaptions("contain a timestamp overflow")));
    let append_first = Json3Caption {
        events: vec![Json3Event { start_ms: Some(0), duration_ms: Some(1), append: Some(1), segs: Some(vec!["x".to_owned()]) }],
    };
    assert_eq!(
        parse_json3(&append_first),
        Err(ProviderError::InvalidCaptions("begin with an append-only text event"))
    );
    let blank = Json3Caption { events: vec![event(0, 1, &[" ", "\n"])] };
    assert_eq!(parse_json3(&blank), Err(ProviderError::InvalidCaptions("contain no text evidence")));
    let trimmed = parse_json3(&Json3Caption { events: vec![event(0, 1, &["  padded\n"])] }).expect("captions should parse");
    assert_eq!(trimmed[0].text, "padded");
}

#[test]
fn without_a_preference_english_then_manual_then_generated_is_chosen() {
    let mut m = metadata();
    let selected = select_caption(&m, None).expect("caption should resolve");
    assert_eq!(selected.language, "en");
    assert_eq!(selected.kind, SelectedCaptionKind::Manual);

    m.subtitles = vec![tracks("de", &["json3"])];
    m.automatic_captions = vec![tracks("fr", &["json3"])];
    let selected = select_caption(&m, None).expect("caption should resolve");
    assert_eq!(selected.language, "de");

    m.subtitles = Vec::new();
    let selected = select_caption(&m, None).expect("caption should resolve");
    assert_eq!(selected.language, "fr");
    assert_eq!(selected.kind, SelectedCaptionKind::Generated);

    m.automatic_captions = Vec::new();
    assert_eq!(
        select_caption(&m, None),
        Err(ProviderError::CaptionsUnavailable { requested: None, available: Vec::new() })
    );
}

#[test]
fn unavailable_languages_list_what_is_offered_once_in_order() {
    assert_eq!(available_languages(&metadata()), ["en", "fr"]);
    assert_eq!(
        select_caption(&metadata(), Some("de")),
        Err(ProviderError::CaptionsUnavailable {
            requested: Some("de".to_owned()),
            available: vec!["en".to_owned(), "fr".to_owned()],
        })
    );
}

#[test]
fn metadata_must_describe_an_available_recorded_source() {
    let mut m = metadata();
    m.title = " ".to_owned();
    assert_eq!(check_metadata(m, &source()), Err(ProviderError::InvalidMetadata("does not contain a title")));
    let mut m = metadata();
    m.webpage_url = "nonsense".to_owned();
    assert_eq!(
        check_metadata(m, &source()),
        Err(ProviderError::InvalidMetadata("contains an invalid canonical URL"))
    );
    let mut m = metadata();
    m.availability = Some("private".to_owned());
    assert_eq!(
        check_metadata(m, &source()),
        Err(ProviderError::ProcessFailed { stage: "metadata acquisition", kind: ProviderFailureKind::SourcePrivate })
    );
    let mut m = metadata();
    m.availability = Some("premium_only".to_owned());
    assert_eq!(
        check_metadata(m, &source()),
        Err(ProviderError::ProcessFailed {
            stage: "metadata acquisition",
            kind: ProviderFailureKind::AuthenticationRequired,
        })
    );
    let mut m = metadata();
    m.live_status = Some("is_upcoming".to_owned());
    assert_eq!(check_metadata(m, &source()), Err(ProviderError::LiveSourceUnsupported));
    let mut m = metadata();
    m.live_status = None;
    assert!(check_metadata(m, &source()).is_ok());
}

#[test]
fn an_acquisition_compiles_with_its_creator_and_full_coverage() {
    let cues = vec![AcquiredCue { start_ms: 0, end_ms: 10_000, text: "Hello".to_owned() }];
    let selected = SelectedCaption { language: "en".to_owned(), kind: SelectedCaptionKind::Generated };
    let compiled = compile_acquisition(&source(), metadata(), selected.clone(), cues.clone(), 10_500)
        .expect("acquisition should compile");
    assert_eq!(compiled.metadata.creator, "Oriel channel");
    assert_eq!(compiled.metadata.duration_ms, 10_500);
    assert_eq!(compiled.coverage.transcript_end_ms, 10_500);
    assert!(compiled.coverage.transcript_complete);
    assert_eq!(compiled.acquisition.adapter, "yt_dlp");
    assert_eq!(compiled.acquisition.source_format, "youtube_json3");
    assert_eq!(compiled.acquisition.tool.as_ref().map(|t| t.version.as_str()), Some("2026.07.04"));
    assert_eq!(compiled.evidence[0].transcript.captions, CaptionProvenance::Generated);

    let mut m = metadata();
    m.channel = None;
    let compiled = compile_acquisition(&source(), m, selected.clone(), cues.clone(), 10_500).expect("acquisition should compile");
    assert_eq!(compiled.metadata.creator, "Oriel");

    let mut m = metadata();
    m.channel = Some(" ".to_owned());
    assert_eq!(
        compile_acquisition(&source(), m, selected.clone(), cues.clone(), 10_500),
        Err(ProviderError::InvalidMetadata("does not contain a creator"))
    );
    let blank = vec![AcquiredCue { start_ms: 0, end_ms: 10_000, text: " ".to_owned() }];
    assert_eq!(
        compile_acquisition(&source(), metadata(), selected, blank, 10_500),
        Err(ProviderError::Compile(oriel::compile::CompileError::InvalidCue { index: 0, reason: "has no text" }))
    );
}

#[test]
fn a_request_is_checked_before_anything_runs() {
    let (source, language) = ingest_request("https://youtu.be/dQw4w9WgXcQ", Some("en")).expect("request should be valid");
    assert_eq!(source.source_id, "dQw4w9WgXcQ");
    assert_eq!(language.as_deref(), Some("en"));
    assert_eq!(
        ingest_request("https://youtu.be/dQw4w9WgXcQ", Some("")),
        Err(ProviderError::InvalidLanguage(String::new()))
    );
    assert_eq!(
        ingest_request("nope", Some("en")),
        Err(ProviderError::InvalidSource(oriel::source::SourceError::MalformedUrl))
    );
}

#[test]
fn stages_stop_on_cancellation_then_on_time() {
    assert_eq!(stage_check("metadata acquisition", true, 0, 10), Some(ProviderError::Cancelled("metadata acquisition")));
    assert_eq!(
        stage_check("caption acquisition", false, 10, 10),
        Some(ProviderError::TimedOut { stage: "caption acquisition", timeout_ms: 10 })
    );
    assert_eq!(stage_check("caption acquisition", false, 9, 10), None);
    assert_eq!(stage_outcome("x", true, b"ERROR: login"), Ok(()));
    assert_eq!(
        stage_outcome("x", false, b"ERROR: login required"),
        Err(ProviderError::ProcessFailed { stage: "x", kind: ProviderFailureKind::AuthenticationRequired })
    );
    assert_eq!(spawn_error(true, "gone".to_owned()), ProviderError::ToolUnavailable);
    assert_eq!(
        spawn_error(false, "denied".to_owned()),
        ProviderError::Io { stage: "starting yt-dlp", detail: "denied".to_owned() }
    );
}

#[test]
fn exactly_one_caption_artifact_is_accepted() {
    let entries = vec![
        ("metadata.json".to_owned(), true),
        ("caption.en.json3".to_owned(), true),
        ("caption.stderr".to_owned(), true),
    ];
    assert_eq!(caption_artifact(&entries), Ok(1));
    let linked = vec![("caption.en.json3".to_owned(), false)];
    assert_eq!(caption_artifact(&linked), Err(ProviderError::ArtifactMissing("JSON3 caption file")));
    let two = vec![("caption.en.json3".to_owned(), true), ("caption.fr.json3".to_owned(), true)];
    assert_eq!(caption_artifact(&two), Err(ProviderError::UnexpectedArtifact("set of JSON3 caption files")));
    assert_eq!(check_output("caption output", true, 11, 10), Err(ProviderError::OutputTooLarge("caption output")));
    assert_eq!(check_output("caption output", false, 1, 10), Err(ProviderError::UnexpectedArtifact("caption output")));
    assert_eq!(check_output("caption output", true, 10, 10), Ok(()));
}

#[test]
fn an_acquisition_error_outranks_a_cleanup_error() {
    let failed: Result<oriel::evidence::CompiledSource, ProviderError> = Err(ProviderError::ToolUnavailable);
    assert_eq!(settle(failed, Err("busy".to_owned())), Err(ProviderError::ToolUnavailable));
    let compiled = oriel::fixture::compile_fixture(
        "schema_version\t1\nsource_url\thttps://youtu.be/dQw4w9WgXcQ\ntitle\tT\ncreator\tC\nduration_ms\t10\nlanguage\ten\ncaption_provenance\tmanual\ncue\t0\t10\tx\n",
    )
    .expect("fixture should compile");
    assert_eq!(settle(Ok(compiled.clone()), Err("busy".to_owned())), Err(ProviderError::Cleanup("busy".to_owned())));
    assert_eq!(settle(Ok(compiled.clone()), Ok(())), Ok(compiled));
}

#[test]
fn provider_errors_read_as_sentences() {
    assert_eq!(
        ProviderError::TimedOut { stage: "metadata acquisition", timeout_ms: 90_000 }.message(),
        "metadata acquisition exceeded its 90 second time limit"
    );
    assert_eq!(
        ProviderError::CaptionsUnavailable {
            requested: Some("de".to_owned()),
            available: vec!["en".to_owned(), "fr".to_owned()],
        }
        .message(),
        "captions in 'de' are unavailable; available languages: en, fr"
    );
    assert_eq!(
        ProviderError::ProcessFailed { stage: "caption acquisition", kind: ProviderFailureKind::SourcePrivate }.message(),
        "caption acquisition failed: the source is private"
    );
    assert_eq!(
        ProviderError::Compile(oriel::compile::CompileError::NoEvidence).message(),
        "source contains no transcript evidence"
    );
}

#[test]
fn a_cancelled_copy_cancels_the_control() {
    let control = oriel::provider::ytdlp::AcquisitionControl::default_control();
    let token = control.cancellation_token();
    assert!(!control.cancellation.is_cancelled());
    token.cancel();
    assert!(control.cancellation.is_cancelled());
    assert_eq!(control.stage_timeout_ms, 90_000);
    let short = oriel::provider::ytdlp::AcquisitionControl::with_stage_timeout(40);
    assert_eq!(short.stage_timeout_ms, 40);
    assert!(!short.cancellation.is_cancelled());
}

#[test]
fn an_append_keeps_the_later_end() {
    let cues = parse_json3(&Json3Caption {
        events: vec![
            event(0, 5000, &["long"]),
            Json3Event { start_ms: Some(1000), duration_ms: Some(1000), append: Some(1), segs: Some(vec![" tail".to_owned()]) },
        ],
    })
    .expect("captions should parse");
    assert_eq!(cues.len(), 1);
    assert_eq!(cues[0].start_ms, 0);
    assert_eq!(cues[0].end_ms, 5_000);
    assert_eq!(cues[0].text, "long tail");
}

#[test]
fn live_coverage_follows_the_caption_timing() {
    let selected = SelectedCaption { language: "en".to_owned(), kind: SelectedCaptionKind::Manual };
    let late = vec![AcquiredCue { start_ms: 60_000, end_ms: 90_000, text: "Late".to_owned() }];
    let compiled = compile_acquisition(&source(), metadata(), selected.clone(), late, 120_000)
        .expect("acquisition should compile");
    assert_eq!(compiled.coverage.transcript_start_ms, 60_000);
    assert_eq!(compiled.coverage.transcript_end_ms, 90_000);
    assert!(!compiled.coverage.transcript_complete);

    let drifting = vec![AcquiredCue { start_ms: 1_500, end_ms: 11_900, text: "Edge".to_owned() }];
    let compiled = compile_acquisition(&source(), metadata(), selected.clone(), drifting, 10_500)
        .expect("acquisition should compile");
    assert_eq!(compiled.coverage.transcript_start_ms, 0);
    assert_eq!(compiled.coverage.transcript_end_ms, 10_500);
    assert!(compiled.coverage.transcript_complete);
    assert_eq!(compiled.evidence[0].end_ms, 10_500);

    let outside = vec![AcquiredCue { start_ms: 0, end_ms: 12_501, text: "Past".to_owned() }];
    assert_eq!(
        compile_acquisition(&source(), metadata(), selected, outside, 10_500),
        Err(ProviderError::InvalidCaptions("contain a timestamp outside the source"))
    );
}
