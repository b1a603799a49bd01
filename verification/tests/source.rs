use oriel::source::{canonicalise_source, CanonicalSource, SourceError, SourceProvider};

const VIDEO_ID: &str = "dQw4w9WgXcQ";

#[test]
fn canonicalises_common_youtube_urls() {
    let inputs = [
        format!("https://www.youtube.com/watch?v={VIDEO_ID}&t=42s"),
        format!("https://youtu.be/{VIDEO_ID}?si=tracking"),
        format!("https://m.youtube.com/shorts/{VIDEO_ID}"),
        format!("https://www.youtube.com/embed/{VIDEO_ID}"),
        format!("https://youtube.com/live/{VIDEO_ID}?feature=share"),
    ];

    let expected = CanonicalSource {
        provider: SourceProvider::YouTube,
        source_id: VIDEO_ID.to_owned(),
        canonical_url: format!("https://www.youtube.com/watch?v={VIDEO_ID}"),
    };

    for input in inputs {
        assert_eq!(canonicalise_source(&input), Ok(expected.clone()));
    }
}

#[test]
fn rejects_unsupported_and_malformed_sources() {
    assert_eq!(canonicalise_source("not a url"), Err(SourceError::MalformedUrl));
    assert_eq!(
        canonicalise_source("https://example.com/watch?v=dQw4w9WgXcQ"),
        Err(SourceError::UnsupportedSource)
    );
    assert_eq!(canonicalise_source("file:///tmp/video"), Err(SourceError::UnsupportedSource));
}

#[test]
fn rejects_missing_or_invalid_video_ids() {
    let inputs = [
        "https://www.youtube.com/watch?list=playlist",
        "https://youtu.be/too-short",
        "https://www.youtube.com/shorts/dQw4w9WgXc!",
    ];

    for input in inputs {
        assert_eq!(canonicalise_source(input), Err(SourceError::MissingVideoId));
    }
}

#[test]
fn a_canonical_url_resolves_to_itself() {
    let source = canonicalise_source("https://youtu.be/Ori3lDemo01?si=tracking-token")
        .expect("source should be valid");
    assert_eq!(source.canonical_url, "https://www.youtube.com/watch?v=Ori3lDemo01");
    assert_eq!(canonicalise_source(&source.canonical_url), Ok(source));
}

#[test]
fn hosts_are_case_insensitive_and_input_is_trimmed() {
    let source = canonicalise_source("  http://WWW.YouTube.com/watch?feature=x&v=dQw4w9WgXcQ \n")
        .expect("source should be valid");
    assert_eq!(source.source_id, VIDEO_ID);
    assert_eq!(
        canonicalise_source("HTTPS://youtu.be/dQw4w9WgXcQ"),
        Err(SourceError::UnsupportedSource)
    );
    assert_eq!(
        canonicalise_source("https://user@youtube.com/watch?v=dQw4w9WgXcQ"),
        Err(SourceError::UnsupportedSource)
    );
    assert_eq!(
        canonicalise_source("https://youtube.com:443/watch?v=dQw4w9WgXcQ"),
        Err(SourceError::UnsupportedSource)
    );
}

#[test]
fn source_errors_read_as_sentences() {
    assert_eq!(SourceError::MalformedUrl.message(), "the source URL is malformed");
    assert_eq!(
        SourceError::MissingVideoId.message(),
        "the YouTube URL does not contain a valid video ID"
    );
}
