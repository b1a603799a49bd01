//! The `yt-dlp` provider's decisions: which caption track to take, how to
//! read its JSON3 events, what its metadata must say, and how it is run.
use vstd::prelude::*;

use crate::compile::{
    compile_outcome, compile_source, cue_views, passages, segment_cues, AcquiredCue,
    AcquiredCueView, AcquiredSource, AcquiredSourceView, CompileError,
};
use crate::evidence::{
    AcquisitionProvenance, AcquisitionProvenanceView, CaptionProvenance, CompiledSource,
    CompiledSourceView, Coverage, SourceMetadata, SourceMetadataView, ToolProvenance,
    ToolProvenanceView, TranscriptProvenance, TranscriptProvenanceView,
};
use crate::source::{
    canonicalise_source, resolve_id, trim, trimmed, watch_url, CanonicalSource, CanonicalSourceView,
    SourceError,
};
use vstd::utf8::encode_utf8;
use crate::text::{blank, chars_eq, chars_of, is_blank, joined, push_str, seqs_of, string_of};

verus! {

broadcast use vstd::string::group_string_axioms;

/// The longest caption language tag accepted.
pub const MAX_LANGUAGE_LENGTH: usize = 64;

/// Captions are grouped into passages of about this many milliseconds.
pub const PASSAGE_TARGET_MS: u64 = 30_000;

#[derive(Clone, Copy, Debug, PartialEq, Eq, Structural)]
pub enum ProviderFailureKind {
    SourceUnavailable,
    SourcePrivate,
    AuthenticationRequired,
    ProviderFailure,
}

/// Why acquiring a source failed. Input and output failures carry the
/// failing stage and the system's message.
#[derive(Clone, Debug, PartialEq, Eq)]
pub enum ProviderError {
    InvalidSource(SourceError),
    InvalidLanguage(String),
    ToolUnavailable,
    TimedOut { stage: &'static str, timeout_ms: u64 },
    Cancelled(&'static str),
    ProcessFailed { stage: &'static str, kind: ProviderFailureKind },
    ArtifactMissing(&'static str),
    UnexpectedArtifact(&'static str),
    OutputTooLarge(&'static str),
    InvalidMetadata(&'static str),
    IdentityMismatch,
    LiveSourceUnsupported,
    CaptionsUnavailable { requested: Option<String>, available: Vec<String> },
    CaptionFormatUnavailable(String),
    InvalidCaptions(&'static str),
    Io { stage: &'static str, detail: String },
    Compile(CompileError),
    Cleanup(String),
}

pub enum ProviderErrorView {
    InvalidSource(SourceError),
    InvalidLanguage(Seq<char>),
    ToolUnavailable,
    TimedOut { stage: &'static str, timeout_ms: u64 },
    Cancelled(&'static str),
    ProcessFailed { stage: &'static str, kind: ProviderFailureKind },
    ArtifactMissing(&'static str),
    UnexpectedArtifact(&'static str),
    OutputTooLarge(&'static str),
    InvalidMetadata(&'static str),
    IdentityMismatch,
    LiveSourceUnsupported,
    CaptionsUnavailable { requested: Option<Seq<char>>, available: Seq<Seq<char>> },
    CaptionFormatUnavailable(Seq<char>),
    InvalidCaptions(&'static str),
    Io { stage: &'static str, detail: Seq<char> },
    Compile(CompileError),
    Cleanup(Seq<char>),
}

pub open spec fn strings_view(v: Seq<String>) -> Seq<Seq<char>> {
    v.map_values(|s: String| s@)
}

pub open spec fn opt_string_view(o: Option<String>) -> Option<Seq<char>> {
    match o {
        Some(s) => Some(s@),
        None => None,
    }
}

impl View for ProviderError {
    type V = ProviderErrorView;

    open spec fn view(&self) -> ProviderErrorView {
        match self {
            ProviderError::InvalidSource(e) => ProviderErrorView::InvalidSource(*e),
            ProviderError::InvalidLanguage(l) => ProviderErrorView::InvalidLanguage(l@),
            ProviderError::ToolUnavailable => ProviderErrorView::ToolUnavailable,
            ProviderError::TimedOut { stage, timeout_ms } => ProviderErrorView::TimedOut {
                stage: *stage,
                timeout_ms: *timeout_ms,
            },
            ProviderError::Cancelled(s) => ProviderErrorView::Cancelled(*s),
            ProviderError::ProcessFailed { stage, kind } => ProviderErrorView::ProcessFailed {
                stage: *stage,
                kind: *kind,
            },
            ProviderError::ArtifactMissing(a) => ProviderErrorView::ArtifactMissing(*a),
            ProviderError::UnexpectedArtifact(a) => ProviderErrorView::UnexpectedArtifact(*a),
            ProviderError::OutputTooLarge(a) => ProviderErrorView::OutputTooLarge(*a),
            ProviderError::InvalidMetadata(r) => ProviderErrorView::InvalidMetadata(*r),
            ProviderError::IdentityMismatch => ProviderErrorView::IdentityMismatch,
            ProviderError::LiveSourceUnsupported => ProviderErrorView::LiveSourceUnsupported,
            ProviderError::CaptionsUnavailable { requested, available } =>
                ProviderErrorView::CaptionsUnavailable {
                requested: opt_string_view(*requested),
                available: strings_view(available@),
            },
            ProviderError::CaptionFormatUnavailable(l) => ProviderErrorView::CaptionFormatUnavailable(
                l@,
            ),
            ProviderError::InvalidCaptions(r) => ProviderErrorView::InvalidCaptions(*r),
            ProviderError::Io { stage, detail } => ProviderErrorView::Io {
                stage: *stage,
                detail: detail@,
            },
            ProviderError::Compile(e) => ProviderErrorView::Compile(*e),
            ProviderError::Cleanup(d) => ProviderErrorView::Cleanup(d@),
        }
    }
}

/// How long a provider stage may run before it is stopped, unless the
/// caller chooses otherwise: ninety seconds.
pub const DEFAULT_STAGE_TIMEOUT_MS: u64 = 90_000;

/// A flag that a caller sets to stop an acquisition in progress. Every copy
/// shares the one flag, so cancelling a copy handed to another task cancels
/// them all. Whether it has been cancelled depends on what other tasks did,
/// so nothing is stated of it.
#[derive(Clone, Debug)]
pub struct CancellationToken {
    cancelled: std::sync::Arc<std::sync::atomic::AtomicBool>,
}

/// Another pointer to the same shared flag (std's `Arc::clone`). The
/// contract claims that the copy equals the original, as std documents it:
/// it points to the same allocation.
#[verifier::external_body]
fn share_flag(flag: &std::sync::Arc<std::sync::atomic::AtomicBool>) -> (r: std::sync::Arc<
    std::sync::atomic::AtomicBool,
>)
    ensures
        r == *flag,
{
    std::sync::Arc::clone(flag)
}

impl CancellationToken {
    /// A token that no one has cancelled yet, on a flag of its own. Neither
    /// the flag's state nor its identity is modelled (std's atomics carry no
    /// value in vstd), so nothing is stated of it.
    pub fn new() -> (t: CancellationToken)
    {
        CancellationToken {
            cancelled: std::sync::Arc::new(std::sync::atomic::AtomicBool::new(false)),
        }
    }

    /// Cancels the acquisition that holds this token or any copy of it.
    pub fn cancel(&self)
    {
        self.cancelled.store(true, std::sync::atomic::Ordering::Release);
    }

    /// Whether this token or any copy of it was cancelled. That depends on
    /// what other tasks did, so nothing is stated of the result.
    pub fn is_cancelled(&self) -> (r: bool)
    {
        self.cancelled.load(std::sync::atomic::Ordering::Acquire)
    }
}

/// How long each provider stage may run, and the token that cancels it.
#[derive(Clone, Debug)]
pub struct AcquisitionControl {
    pub stage_timeout_ms: u64,
    pub cancellation: CancellationToken,
}

impl AcquisitionControl {
    /// The default control: ninety seconds a stage, not cancelled.
    pub fn default_control() -> (c: AcquisitionControl)
        ensures
            c.stage_timeout_ms == DEFAULT_STAGE_TIMEOUT_MS,
    {
        AcquisitionControl {
            stage_timeout_ms: DEFAULT_STAGE_TIMEOUT_MS,
            cancellation: CancellationToken::new(),
        }
    }

    /// A control whose stages may each run for `stage_timeout_ms`.
    pub fn with_stage_timeout(stage_timeout_ms: u64) -> (c: AcquisitionControl)
        ensures
            c.stage_timeout_ms == stage_timeout_ms,
    {
        AcquisitionControl { stage_timeout_ms, cancellation: CancellationToken::new() }
    }

    /// A copy of the token that cancels this control's stages: the same
    /// token, sharing its flag.
    pub fn cancellation_token(&self) -> (t: CancellationToken)
        ensures
            t == self.cancellation,
    {
        CancellationToken { cancelled: share_flag(&self.cancellation.cancelled) }
    }
}

/// The `yt-dlp` executable that acquires live sources.
#[derive(Clone, Debug)]
pub struct YtDlpProvider {
    pub executable: String,
}

impl YtDlpProvider {
    /// A provider that runs the given executable.
    pub fn new(executable: String) -> (p: YtDlpProvider)
        ensures
            p.executable@ == executable@,
    {
        YtDlpProvider { executable }
    }

    /// The provider that runs `yt-dlp` from the executable path.
    pub fn default_provider() -> (p: YtDlpProvider)
        ensures
            p.executable@ == "yt-dlp"@,
    {
        YtDlpProvider { executable: string_of(&chars_of("yt-dlp")) }
    }
}

pub open spec fn language_char(c: char) -> bool {
    ||| ('a' <= c <= 'z')
    ||| ('A' <= c <= 'Z')
    ||| ('0' <= c <= '9')
    ||| c == '-'
    ||| c == '_'
}

/// A caption language tag: one to 64 ASCII letters, digits, `-` or `_`.
pub open spec fn valid_language(language: Seq<char>) -> bool {
    &&& 0 < language.len() <= MAX_LANGUAGE_LENGTH
    &&& forall|i: int| 0 <= i < language.len() ==> language_char(#[trigger] language[i])
}

proof fn lemma_ascii_utf8_len(s: Seq<char>)
    requires
        forall|i: int| 0 <= i < s.len() ==> language_char(#[trigger] s[i]),
    ensures
        vstd::utf8::encode_utf8(s).len() == s.len(),
    decreases s.len(),
{
    if s.len() > 0 {
        assert(language_char(s[0]));
        lemma_ascii_utf8_len(s.drop_first());
    }
}

/// Accepts a caption language tag, or names it as invalid.
pub fn validate_language(language: &str) -> (r: Result<&str, ProviderError>)
    ensures
        valid_language(language@) ==> r == Ok::<&str, ProviderError>(language),
        !valid_language(language@) ==> (r matches Err(ProviderError::InvalidLanguage(l)) && l@
            == language@),
{
    let cs = chars_of(language);
    let mut ok = cs.len() > 0 && cs.len() <= MAX_LANGUAGE_LENGTH;
    let mut i: usize = 0;
    while i < cs.len()
        invariant
            i <= cs.len(),
            cs@ == language@,
            ok == (0 < cs@.len() <= MAX_LANGUAGE_LENGTH && forall|k: int|
                0 <= k < i ==> language_char(#[trigger] cs@[k])),
        decreases cs.len() - i,
    {
        let c = cs[i];
        if !(('a' <= c && c <= 'z') || ('A' <= c && c <= 'Z') || ('0' <= c && c <= '9') || c
            == '-' || c == '_') {
            ok = false;
        }
        i = i + 1;
    }
    if ok {
        Ok(language)
    } else {
        Err(ProviderError::InvalidLanguage(language.to_owned()))
    }
}

pub open spec fn ascii_lower_byte(b: u8) -> u8 {
    if 65 <= b <= 90 {
        (b + 32) as u8
    } else {
        b
    }
}

pub open spec fn lower_bytes(d: Seq<u8>) -> Seq<u8> {
    d.map_values(|b: u8| ascii_lower_byte(b))
}

pub open spec fn bytes_at(hay: Seq<u8>, pat: Seq<u8>, i: int) -> bool {
    0 <= i && i + pat.len() <= hay.len() && hay.subrange(i, i + pat.len()) == pat
}

/// Whether the ASCII-lowercased diagnostics contain `pat`.
pub open spec fn mentions(diagnostics: Seq<u8>, pat: Seq<u8>) -> bool {
    exists|i: int| bytes_at(lower_bytes(diagnostics), pat, i)
}

/// The kind of a provider failure, read from its diagnostics: a private
/// video, a sign-in requirement, an unavailable video, or anything else.
pub open spec fn failure_kind(d: Seq<u8>) -> ProviderFailureKind {
    if mentions(d, encode_utf8("private video"@)) || mentions(
        d,
        encode_utf8("video is private"@),
    ) {
        ProviderFailureKind::SourcePrivate
    } else if mentions(d, encode_utf8("sign in"@)) || mentions(
        d,
        encode_utf8("authentication"@),
    ) || mentions(d, encode_utf8("login"@)) {
        ProviderFailureKind::AuthenticationRequired
    } else if mentions(d, encode_utf8("video unavailable"@)) || mentions(
        d,
        encode_utf8("source is unavailable"@),
    ) {
        ProviderFailureKind::SourceUnavailable
    } else {
        ProviderFailureKind::ProviderFailure
    }
}


fn lower_all(d: &[u8]) -> (r: Vec<u8>)
    ensures
        r@ == lower_bytes(d@),
{
    let mut r: Vec<u8> = Vec::new();
    let mut i: usize = 0;
    while i < d.len()
        invariant
            i <= d.len(),
            r@ == lower_bytes(d@.take(i as int)),
        decreases d.len() - i,
    {
        let b = d[i];
        r.push(if 65 <= b && b <= 90 {
            b + 32
        } else {
            b
        });
        i = i + 1;
        assert(r@ =~= lower_bytes(d@.take(i as int)));
    }
    assert(d@.take(d.len() as int) =~= d@);
    r
}

fn contains_bytes(hay: &[u8], pat: &[u8]) -> (r: bool)
    ensures
        r == exists|i: int| bytes_at(hay@, pat@, i),
{
    if pat.len() > hay.len() {
        return false;
    }
    let last = hay.len() - pat.len();
    let mut i: usize = 0;
    while i <= last
        invariant
            last == hay.len() - pat.len(),
            i <= last + 1,
            forall|k: int| 0 <= k < i ==> !bytes_at(hay@, pat@, k),
        decreases last + 1 - i,
    {
        let mut j: usize = 0;
        let mut same = true;
        while j < pat.len()
            invariant
                j <= pat.len(),
                i <= last,
                last == hay.len() - pat.len(),
                same == (forall|k: int| 0 <= k < j ==> hay@[i + k] == pat@[k]),
            decreases pat.len() - j,
        {
            if hay[i + j] != pat[j] {
                same = false;
            }
            j = j + 1;
        }
        if same {
            assert(hay@.subrange(i as int, i + pat@.len()) =~= pat@);
            assert(bytes_at(hay@, pat@, i as int));
            return true;
        }
        assert(!bytes_at(hay@, pat@, i as int)) by {
            if bytes_at(hay@, pat@, i as int) {
                assert forall|k: int| 0 <= k < pat.len() implies hay@[i + k] == pat@[k] by {
                    assert(hay@.subrange(i as int, i + pat@.len())[k] == hay@[i + k]);
                }
            }
        }
        i = i + 1;
    }
    assert forall|k: int| !bytes_at(hay@, pat@, k) by {
        if 0 <= k && k + pat.len() <= hay.len() {
            assert(k < i);
        }
    }
    false
}

/// Classifies a failed provider run from its diagnostics.
pub fn classify_failure(stderr: &[u8]) -> (k: ProviderFailureKind)
    ensures
        k == failure_kind(stderr@),
{
    let d = lower_all(stderr);
    if contains_bytes(&d, "private video".as_bytes()) || contains_bytes(
        &d,
        "video is private".as_bytes(),
    ) {
        ProviderFailureKind::SourcePrivate
    } else if contains_bytes(&d, "sign in".as_bytes()) || contains_bytes(
        &d,
        "authentication".as_bytes(),
    ) || contains_bytes(&d, "login".as_bytes()) {
        ProviderFailureKind::AuthenticationRequired
    } else if contains_bytes(&d, "video unavailable".as_bytes()) || contains_bytes(
        &d,
        "source is unavailable".as_bytes(),
    ) {
        ProviderFailureKind::SourceUnavailable
    } else {
        ProviderFailureKind::ProviderFailure
    }
}


/// The formats in which one caption language is offered.
#[derive(Clone, Debug, PartialEq, Eq)]
pub struct CaptionTracks {
    pub language: String,
    pub extensions: Vec<String>,
}

pub struct CaptionTracksView {
    pub language: Seq<char>,
    pub extensions: Seq<Seq<char>>,
}

impl View for CaptionTracks {
    type V = CaptionTracksView;

    open spec fn view(&self) -> CaptionTracksView {
        CaptionTracksView { language: self.language@, extensions: strings_view(self.extensions@) }
    }
}

pub open spec fn tracks_view(v: Seq<CaptionTracks>) -> Seq<CaptionTracksView> {
    v.map_values(|t: CaptionTracks| t@)
}

/// What `yt-dlp` reports about a source, as the engine reads it. Each
/// caption map is a list with one entry per language, in ascending order of
/// language, as the provider's JSON object is read.
#[derive(Clone, Debug, PartialEq, Eq)]
pub struct YtDlpMetadata {
    pub id: String,
    pub title: String,
    pub uploader: Option<String>,
    pub channel: Option<String>,
    pub webpage_url: String,
    pub availability: Option<String>,
    pub live_status: Option<String>,
    pub subtitles: Vec<CaptionTracks>,
    pub automatic_captions: Vec<CaptionTracks>,
    pub version: Option<String>,
}

pub struct YtDlpMetadataView {
    pub id: Seq<char>,
    pub title: Seq<char>,
    pub uploader: Option<Seq<char>>,
    pub channel: Option<Seq<char>>,
    pub webpage_url: Seq<char>,
    pub availability: Option<Seq<char>>,
    pub live_status: Option<Seq<char>>,
    pub subtitles: Seq<CaptionTracksView>,
    pub automatic_captions: Seq<CaptionTracksView>,
    pub version: Option<Seq<char>>,
}

impl View for YtDlpMetadata {
    type V = YtDlpMetadataView;

    open spec fn view(&self) -> YtDlpMetadataView {
        YtDlpMetadataView {
            id: self.id@,
            title: self.title@,
            uploader: opt_string_view(self.uploader),
            channel: opt_string_view(self.channel),
            webpage_url: self.webpage_url@,
            availability: opt_string_view(self.availability),
            live_status: opt_string_view(self.live_status),
            subtitles: tracks_view(self.subtitles@),
            automatic_captions: tracks_view(self.automatic_captions@),
            version: opt_string_view(self.version),
        }
    }
}

#[derive(Clone, Copy, Debug, PartialEq, Eq, Structural)]
pub enum SelectedCaptionKind {
    Manual,
    Generated,
}

/// The caption track chosen for acquisition.
#[derive(Clone, Debug, PartialEq, Eq)]
pub struct SelectedCaption {
    pub language: String,
    pub kind: SelectedCaptionKind,
}

impl SelectedCaption {
    /// Manual tracks were written by people; automatic ones were generated.
    pub fn provenance(&self) -> (c: CaptionProvenance)
        ensures
            c == kind_provenance(self.kind),
    {
        match self.kind {
            SelectedCaptionKind::Manual => CaptionProvenance::Manual,
            SelectedCaptionKind::Generated => CaptionProvenance::Generated,
        }
    }
}

pub open spec fn kind_provenance(k: SelectedCaptionKind) -> CaptionProvenance {
    match k {
        SelectedCaptionKind::Manual => CaptionProvenance::Manual,
        SelectedCaptionKind::Generated => CaptionProvenance::Generated,
    }
}

/// Each caption map of the metadata names every language once, in
/// ascending order, as the provider's JSON object is read into a sorted map.
pub open spec fn tracks_well_formed(m: YtDlpMetadataView) -> bool {
    &&& crate::text::strictly_ascending(track_languages(m.subtitles))
    &&& crate::text::strictly_ascending(track_languages(m.automatic_captions))
}

/// The formats offered for `language` by the first entry naming it.
pub open spec fn lookup(tracks: Seq<CaptionTracksView>, language: Seq<char>) -> Option<Seq<Seq<char>>>
    decreases tracks.len(),
{
    if tracks.len() == 0 {
        None
    } else if tracks[0].language == language {
        Some(tracks[0].extensions)
    } else {
        lookup(tracks.drop_first(), language)
    }
}

/// The result of choosing exactly `language`: a manual track before a
/// generated one, and a JSON3 format required of whichever is found.
pub open spec fn select_exact_spec(m: YtDlpMetadataView, language: Seq<char>) -> Result<
    Option<SelectedCaptionKind>,
    ProviderErrorView,
> {
    match lookup(m.subtitles, language) {
        Some(exts) => if exts.contains("json3"@) {
            Ok(Some(SelectedCaptionKind::Manual))
        } else {
            Err(ProviderErrorView::CaptionFormatUnavailable(language))
        },
        None => match lookup(m.automatic_captions, language) {
            Some(exts) => if exts.contains("json3"@) {
                Ok(Some(SelectedCaptionKind::Generated))
            } else {
                Err(ProviderErrorView::CaptionFormatUnavailable(language))
            },
            None => Ok(None),
        },
    }
}

/// The first of `languages` that selects a track.
pub open spec fn select_first(m: YtDlpMetadataView, languages: Seq<Seq<char>>) -> Result<
    Option<(Seq<char>, SelectedCaptionKind)>,
    ProviderErrorView,
>
    decreases languages.len(),
{
    if languages.len() == 0 {
        Ok(None)
    } else {
        match select_exact_spec(m, languages[0]) {
            Err(e) => Err(e),
            Ok(Some(k)) => Ok(Some((languages[0], k))),
            Ok(None) => select_first(m, languages.drop_first()),
        }
    }
}

pub open spec fn track_languages(tracks: Seq<CaptionTracksView>) -> Seq<Seq<char>> {
    tracks.map_values(|t: CaptionTracksView| t.language)
}

/// The distinct languages offered, in ascending order.
pub open spec fn is_available_languages(m: YtDlpMetadataView, r: Seq<Seq<char>>) -> bool {
    &&& crate::text::strictly_ascending(r)
    &&& r.to_set() == track_languages(m.subtitles).to_set() + track_languages(
        m.automatic_captions,
    ).to_set()
}

pub open spec fn available_languages_spec(m: YtDlpMetadataView) -> Seq<Seq<char>> {
    choose|r: Seq<Seq<char>>| is_available_languages(m, r)
}

/// Which caption track to acquire: exactly the requested language, or
/// else English, then the first manual language, then the first generated
/// one.
pub open spec fn select_caption_spec(m: YtDlpMetadataView, preferred: Option<Seq<char>>) -> Result<
    (Seq<char>, SelectedCaptionKind),
    ProviderErrorView,
> {
    match preferred {
        Some(language) => match select_exact_spec(m, language) {
            Err(e) => Err(e),
            Ok(Some(k)) => Ok((language, k)),
            Ok(None) => Err(
                ProviderErrorView::CaptionsUnavailable {
                    requested: Some(language),
                    available: available_languages_spec(m),
                },
            ),
        },
        None => match select_first(
            m,
            seq!["en"@] + track_languages(m.subtitles) + track_languages(m.automatic_captions),
        ) {
            Err(e) => Err(e),
            Ok(Some(found)) => Ok(found),
            Ok(None) => Err(
                ProviderErrorView::CaptionsUnavailable { requested: None, available: Seq::empty() },
            ),
        },
    }
}

fn lookup_tracks(tracks: &Vec<CaptionTracks>, language: &str) -> (r: Option<usize>)
    ensures
        match r {
            Some(k) => k < tracks@.len() && lookup(tracks_view(tracks@), language@) == Some(
                tracks@[k as int]@.extensions,
            ),
            None => lookup(tracks_view(tracks@), language@) is None,
        },
{
    let ghost tv = tracks_view(tracks@);
    let mut i: usize = 0;
    assert(tv.skip(0) =~= tv);
    while i < tracks.len()
        invariant
            i <= tracks.len(),
            tv == tracks_view(tracks@),
            lookup(tv, language@) == lookup(tv.skip(i as int), language@),
        decreases tracks.len() - i,
    {
        assert(tv.skip(i as int)[0] == tracks@[i as int]@);
        assert(tv.skip(i as int).drop_first() =~= tv.skip(i + 1));
        if chars_eq(&chars_of(tracks[i].language.as_str()), &chars_of(language)) {
            return Some(i);
        }
        i = i + 1;
    }
    None
}

fn offers_json3(extensions: &Vec<String>) -> (r: bool)
    ensures
        r == strings_view(extensions@).contains("json3"@),
{
    let json3 = chars_of("json3");
    let mut i: usize = 0;
    while i < extensions.len()
        invariant
            i <= extensions.len(),
            json3@ == "json3"@,
            forall|k: int| 0 <= k < i ==> extensions@[k]@ != "json3"@,
        decreases extensions.len() - i,
    {
        if chars_eq(&chars_of(extensions[i].as_str()), &json3) {
            assert(strings_view(extensions@)[i as int] == "json3"@);
            return true;
        }
        i = i + 1;
    }
    assert(!strings_view(extensions@).contains("json3"@)) by {
        if strings_view(extensions@).contains("json3"@) {
            let k = choose|k: int| 0 <= k < extensions@.len() && strings_view(extensions@)[k] == "json3"@;
        }
    }
    false
}

/// Chooses exactly `language`, preferring its manual track.
pub fn select_exact(metadata: &YtDlpMetadata, language: &str) -> (r: Result<
    Option<SelectedCaption>,
    ProviderError,
>)
    requires
        tracks_well_formed(metadata@),
    ensures
        match select_exact_spec(metadata@, language@) {
            Ok(Some(k)) => r matches Ok(Some(c)) && c.language@ == language@ && c.kind == k,
            Ok(None) => r matches Ok(None),
            Err(e) => r matches Err(x) && x@ == e,
        },
{
    if let Some(k) = lookup_tracks(&metadata.subtitles, language) {
        if offers_json3(&metadata.subtitles[k].extensions) {
            return Ok(Some(SelectedCaption { language: language.to_owned(), kind: SelectedCaptionKind::Manual }));
        }
        return Err(ProviderError::CaptionFormatUnavailable(language.to_owned()));
    }
    if let Some(k) = lookup_tracks(&metadata.automatic_captions, language) {
        if offers_json3(&metadata.automatic_captions[k].extensions) {
            return Ok(
                Some(SelectedCaption { language: language.to_owned(), kind: SelectedCaptionKind::Generated }),
            );
        }
        return Err(ProviderError::CaptionFormatUnavailable(language.to_owned()));
    }
    Ok(None)
}

/// The distinct caption languages offered, ascending.
pub fn available_languages(metadata: &YtDlpMetadata) -> (r: Vec<String>)
    requires
        tracks_well_formed(metadata@),
    ensures
        is_available_languages(metadata@, strings_view(r@)),
        strings_view(r@) == available_languages_spec(metadata@),
{
    let ghost m = metadata@;
    let ghost subs = track_languages(m.subtitles);
    let ghost autos = track_languages(m.automatic_captions);
    let mut acc: Vec<Vec<char>> = Vec::new();
    let mut i: usize = 0;
    assert(seqs_of(acc@).to_set() =~= subs.take(0).to_set());
    while i < metadata.subtitles.len()
        invariant
            i <= metadata.subtitles.len(),
            m == metadata@,
            subs == track_languages(m.subtitles),
            crate::text::strictly_ascending(seqs_of(acc@)),
            seqs_of(acc@).to_set() == subs.take(i as int).to_set(),
        decreases metadata.subtitles.len() - i,
    {
        let lang = chars_of(metadata.subtitles[i].language.as_str());
        assert(subs[i as int] == lang@);
        assert(subs.take(i + 1) =~= subs.take(i as int).push(lang@));
        proof {
            subs.take(i as int).lemma_push_to_set_commute(lang@);
        }
        crate::text::insert_ascending(&mut acc, lang);
        i = i + 1;
    }
    assert(subs.take(metadata.subtitles.len() as int) =~= subs);
    let mut j: usize = 0;
    assert(autos.take(0).to_set() =~= Set::<Seq<char>>::empty());
    while j < metadata.automatic_captions.len()
        invariant
            j <= metadata.automatic_captions.len(),
            m == metadata@,
            autos == track_languages(m.automatic_captions),
            crate::text::strictly_ascending(seqs_of(acc@)),
            seqs_of(acc@).to_set() == subs.to_set() + autos.take(j as int).to_set(),
        decreases metadata.automatic_captions.len() - j,
    {
        let lang = chars_of(metadata.automatic_captions[j].language.as_str());
        assert(autos[j as int] == lang@);
        assert(autos.take(j + 1) =~= autos.take(j as int).push(lang@));
        proof {
            autos.take(j as int).lemma_push_to_set_commute(lang@);
        }
        crate::text::insert_ascending(&mut acc, lang);
        assert(seqs_of(acc@).to_set() =~= subs.to_set() + autos.take(j + 1).to_set());
        j = j + 1;
    }
    assert(autos.take(metadata.automatic_captions.len() as int) =~= autos);
    let mut r: Vec<String> = Vec::new();
    let mut k: usize = 0;
    while k < acc.len()
        invariant
            k <= acc.len(),
            strings_view(r@) == seqs_of(acc@).take(k as int),
        decreases acc.len() - k,
    {
        let ghost before = r@;
        let s = string_of(&acc[k]);
        r.push(s);
        assert(strings_view(r@) =~= strings_view(before).push(s@));
        assert(seqs_of(acc@).take(k + 1) =~= seqs_of(acc@).take(k as int).push(acc@[k as int]@));
        k = k + 1;
    }
    assert(seqs_of(acc@).take(acc.len() as int) =~= seqs_of(acc@));
    proof {
        let chosen = available_languages_spec(m);
        assert(is_available_languages(m, strings_view(r@)));
        assert(is_available_languages(m, chosen));
        crate::text::lemma_ascending_unique(strings_view(r@), chosen);
    }
    r
}


proof fn lemma_select_first_step(m: YtDlpMetadataView, ls: Seq<Seq<char>>, i: int)
    requires
        0 <= i < ls.len(),
    ensures
        select_first(m, ls.skip(i)) == match select_exact_spec(m, ls[i]) {
            Err(e) => Err(e),
            Ok(Some(k)) => Ok(Some((ls[i], k))),
            Ok(None) => select_first(m, ls.skip(i + 1)),
        },
{
    assert(ls.skip(i)[0] == ls[i]);
    assert(ls.skip(i).drop_first() =~= ls.skip(i + 1));
}

/// Chooses the caption track to acquire: exactly the requested language,
/// or else English, then the first manual language, then the first
/// generated one.
pub fn select_caption(metadata: &YtDlpMetadata, preferred_language: Option<&str>) -> (r: Result<
    SelectedCaption,
    ProviderError,
>)
    requires
        tracks_well_formed(metadata@),
    ensures
        match select_caption_spec(
            metadata@,
            match preferred_language {
                Some(l) => Some(l@),
                None => None,
            },
        ) {
            Ok((language, k)) => r matches Ok(c) && c.language@ == language && c.kind == k,
            Err(e) => r matches Err(x) && x@ == e,
        },
{
    if let Some(language) = preferred_language {
        if let Some(selected) = select_exact(metadata, language)? {
            return Ok(selected);
        }
        return Err(
            ProviderError::CaptionsUnavailable {
                requested: Some(language.to_owned()),
                available: available_languages(metadata),
            },
        );
    }
    let ghost m = metadata@;
    let ghost order = seq!["en"@] + track_languages(m.subtitles) + track_languages(
        m.automatic_captions,
    );
    let mut candidates: Vec<String> = Vec::new();
    candidates.push(string_of(&chars_of("en")));
    let mut i: usize = 0;
    while i < metadata.subtitles.len()
        invariant
            i <= metadata.subtitles.len(),
            m == metadata@,
            strings_view(candidates@) == seq!["en"@] + track_languages(m.subtitles).take(i as int),
        decreases metadata.subtitles.len() - i,
    {
        let ghost before = candidates@;
        let l = metadata.subtitles[i].language.clone();
        candidates.push(l);
        assert(strings_view(candidates@) =~= strings_view(before).push(l@));
        assert(track_languages(m.subtitles).take(i + 1) =~= track_languages(m.subtitles).take(
            i as int,
        ).push(l@));
        i = i + 1;
    }
    assert(track_languages(m.subtitles).take(metadata.subtitles.len() as int) =~= track_languages(
        m.subtitles,
    ));
    let mut j: usize = 0;
    while j < metadata.automatic_captions.len()
        invariant
            j <= metadata.automatic_captions.len(),
            m == metadata@,
            strings_view(candidates@) == seq!["en"@] + track_languages(m.subtitles)
                + track_languages(m.automatic_captions).take(j as int),
        decreases metadata.automatic_captions.len() - j,
    {
        let ghost before = candidates@;
        let l = metadata.automatic_captions[j].language.clone();
        candidates.push(l);
        assert(strings_view(candidates@) =~= strings_view(before).push(l@));
        assert(track_languages(m.automatic_captions).take(j + 1) =~= track_languages(
            m.automatic_captions,
        ).take(j as int).push(l@));
        j = j + 1;
    }
    assert(track_languages(m.automatic_captions).take(metadata.automatic_captions.len() as int)
        =~= track_languages(m.automatic_captions));
    let ghost ls = strings_view(candidates@);
    assert(ls == order);
    let mut k: usize = 0;
    assert(ls.skip(0) =~= ls);
    while k < candidates.len()
        invariant
            k <= candidates.len(),
            m == metadata@,
            ls == strings_view(candidates@),
            ls == order,
            order == seq!["en"@] + track_languages(m.subtitles) + track_languages(
                m.automatic_captions,
            ),
            preferred_language is None,
            tracks_well_formed(metadata@),
            select_first(m, ls) == select_first(m, ls.skip(k as int)),
        decreases candidates.len() - k,
    {
        proof {
            lemma_select_first_step(m, ls, k as int);
        }
        assert(ls[k as int] == candidates@[k as int]@);
        if let Some(selected) = select_exact(metadata, candidates[k].as_str())? {
            return Ok(selected);
        }
        k = k + 1;
    }
    assert(ls.skip(candidates.len() as int) =~= Seq::<Seq<char>>::empty());
    assert(select_first(m, ls) == Ok::<Option<(Seq<char>, SelectedCaptionKind)>, ProviderErrorView>(None));
    let none: Vec<String> = Vec::new();
    assert(strings_view(none@) =~= Seq::<Seq<char>>::empty());
    Err(ProviderError::CaptionsUnavailable { requested: None, available: none })
}


proof fn lemma_lookup_names(tracks: Seq<CaptionTracksView>, language: Seq<char>)
    ensures
        lookup(tracks, language) matches Some(exts) ==> exists|i: int|
            0 <= i < tracks.len() && tracks[i].language == language && (#[trigger] tracks[i]).extensions
                == exts,
        (exists|i: int| 0 <= i < tracks.len() && (#[trigger] tracks[i]).language == language)
            ==> lookup(tracks, language) is Some,
    decreases tracks.len(),
{
    if tracks.len() > 0 {
        let rest = tracks.drop_first();
        lemma_lookup_names(rest, language);
        if tracks[0].language != language {
            if let Some(exts) = lookup(tracks, language) {
                let j = choose|j: int|
                    0 <= j < rest.len() && rest[j].language == language && (#[trigger] rest[j]).extensions
                        == exts;
                assert(tracks[j + 1] == rest[j]);
            }
            if exists|i: int| 0 <= i < tracks.len() && (#[trigger] tracks[i]).language == language {
                let i = choose|i: int| 0 <= i < tracks.len() && (#[trigger] tracks[i]).language == language;
                assert(i > 0);
                assert(rest[i - 1] == tracks[i]);
            }
        }
    }
}

/// With no language requested, English comes first: whenever English
/// captions are offered, and every English track offers JSON3, the English
/// track is selected, whatever other languages come before it in the
/// metadata. A manual English track is taken over a generated one.
pub proof fn law_english_is_preferred(m: YtDlpMetadataView)
    requires
        (exists|i: int| 0 <= i < m.subtitles.len() && (#[trigger] m.subtitles[i]).language == "en"@)
            || (exists|i: int|
            0 <= i < m.automatic_captions.len() && (#[trigger] m.automatic_captions[i]).language
                == "en"@),
        forall|i: int|
            0 <= i < m.subtitles.len() && (#[trigger] m.subtitles[i]).language == "en"@
                ==> m.subtitles[i].extensions.contains("json3"@),
        forall|i: int|
            0 <= i < m.automatic_captions.len() && (#[trigger] m.automatic_captions[i]).language
                == "en"@ ==> m.automatic_captions[i].extensions.contains("json3"@),
    ensures
        select_caption_spec(m, None) matches Ok((language, _)) && language == "en"@,
        (exists|i: int| 0 <= i < m.subtitles.len() && (#[trigger] m.subtitles[i]).language == "en"@)
            ==> select_caption_spec(m, None) == Ok::<
            (Seq<char>, SelectedCaptionKind),
            ProviderErrorView,
        >(("en"@, SelectedCaptionKind::Manual)),
        !(exists|i: int| 0 <= i < m.subtitles.len() && (#[trigger] m.subtitles[i]).language == "en"@)
            ==> select_caption_spec(m, None) == Ok::<
            (Seq<char>, SelectedCaptionKind),
            ProviderErrorView,
        >(("en"@, SelectedCaptionKind::Generated)),
{
    let en = "en"@;
    lemma_lookup_names(m.subtitles, en);
    lemma_lookup_names(m.automatic_captions, en);
    let ls = seq![en] + track_languages(m.subtitles) + track_languages(m.automatic_captions);
    assert(ls[0] == en);
    assert(ls.len() > 0);
    if let Some(exts) = lookup(m.subtitles, en) {
        let i = choose|i: int|
            0 <= i < m.subtitles.len() && m.subtitles[i].language == en && (#[trigger] m.subtitles[i]).extensions
                == exts;
        assert(exts.contains("json3"@));
    } else if let Some(exts) = lookup(m.automatic_captions, en) {
        let i = choose|i: int|
            0 <= i < m.automatic_captions.len() && m.automatic_captions[i].language == en
                && (#[trigger] m.automatic_captions[i]).extensions == exts;
        assert(exts.contains("json3"@));
    }
    assert(select_exact_spec(m, en) is Ok && select_exact_spec(m, en)->Ok_0 is Some);
    assert(select_first(m, ls) == Ok::<Option<(Seq<char>, SelectedCaptionKind)>, ProviderErrorView>(
        Some((en, select_exact_spec(m, en)->Ok_0->0)),
    ));
}


/// Whether a metadata availability value says the source is private.
pub open spec fn is_private(availability: Option<Seq<char>>) -> bool {
    availability == Some("private"@)
}

/// Whether a metadata availability value says the source needs an account.
pub open spec fn needs_account(availability: Option<Seq<char>>) -> bool {
    ||| availability == Some("needs_auth"@)
    ||| availability == Some("premium_only"@)
    ||| availability == Some("subscriber_only"@)
}

/// What checking a source's metadata decides: its page must resolve to
/// the expected identity, it must have a title, be available without an
/// account, and not be live or upcoming.
pub open spec fn metadata_outcome(m: YtDlpMetadataView, expected: crate::source::CanonicalSourceView) -> Result<
    (),
    ProviderErrorView,
> {
    match resolve_id(m.webpage_url) {
        Err(_) => Err(ProviderErrorView::InvalidMetadata("contains an invalid canonical URL")),
        Ok(id) => if m.id != expected.source_id || expected.provider
            != crate::source::SourceProvider::YouTube || expected.source_id != id
            || expected.canonical_url != watch_url(id) {
            Err(ProviderErrorView::IdentityMismatch)
        } else if is_blank(m.title) {
            Err(ProviderErrorView::InvalidMetadata("does not contain a title"))
        } else if is_private(m.availability) {
            Err(
                ProviderErrorView::ProcessFailed {
                    stage: "metadata acquisition",
                    kind: ProviderFailureKind::SourcePrivate,
                },
            )
        } else if needs_account(m.availability) {
            Err(
                ProviderErrorView::ProcessFailed {
                    stage: "metadata acquisition",
                    kind: ProviderFailureKind::AuthenticationRequired,
                },
            )
        } else if !(m.live_status is None || m.live_status == Some("not_live"@)) {
            Err(ProviderErrorView::LiveSourceUnsupported)
        } else {
            Ok(())
        },
    }
}

fn is_text(s: &String, lit: &str) -> (r: bool)
    ensures
        r == (s@ == lit@),
{
    chars_eq(&chars_of(s.as_str()), &chars_of(lit))
}

fn opt_is_text(s: &Option<String>, lit: &str) -> (r: bool)
    ensures
        r == (opt_string_view(*s) == Some(lit@)),
{
    match s {
        Some(v) => is_text(v, lit),
        None => false,
    }
}

/// Checks the metadata `yt-dlp` returned for the expected source, and hands
/// it back when it may be used.
pub fn check_metadata(metadata: YtDlpMetadata, expected: &CanonicalSource) -> (r: Result<
    YtDlpMetadata,
    ProviderError,
>)
    ensures
        match metadata_outcome(metadata@, expected@) {
            Ok(()) => r matches Ok(m) && m@ == metadata@,
            Err(e) => r matches Err(x) && x@ == e,
        },
{
    let returned = match canonicalise_source(metadata.webpage_url.as_str()) {
        Ok(c) => c,
        Err(_) => {
            return Err(ProviderError::InvalidMetadata("contains an invalid canonical URL"));
        },
    };
    if !is_text(&metadata.id, expected.source_id.as_str()) || !returned.same_as(expected) {
        return Err(ProviderError::IdentityMismatch);
    }
    if blank(metadata.title.as_str()) {
        return Err(ProviderError::InvalidMetadata("does not contain a title"));
    }
    if opt_is_text(&metadata.availability, "private") {
        return Err(
            ProviderError::ProcessFailed {
                stage: "metadata acquisition",
                kind: ProviderFailureKind::SourcePrivate,
            },
        );
    }
    if opt_is_text(&metadata.availability, "needs_auth") || opt_is_text(
        &metadata.availability,
        "premium_only",
    ) || opt_is_text(&metadata.availability, "subscriber_only") {
        return Err(
            ProviderError::ProcessFailed {
                stage: "metadata acquisition",
                kind: ProviderFailureKind::AuthenticationRequired,
            },
        );
    }
    if metadata.live_status.is_some() && !opt_is_text(&metadata.live_status, "not_live") {
        return Err(ProviderError::LiveSourceUnsupported);
    }
    Ok(metadata)
}


/// One JSON3 caption event: when it starts, how long it shows, whether it
/// extends the previous event, and its text segments.
#[derive(Clone, Debug, PartialEq, Eq)]
pub struct Json3Event {
    pub start_ms: Option<u64>,
    pub duration_ms: Option<u64>,
    pub append: Option<u8>,
    pub segs: Option<Vec<String>>,
}

pub struct Json3EventView {
    pub start_ms: Option<u64>,
    pub duration_ms: Option<u64>,
    pub append: Option<u8>,
    pub segs: Option<Seq<Seq<char>>>,
}

impl View for Json3Event {
    type V = Json3EventView;

    open spec fn view(&self) -> Json3EventView {
        Json3EventView {
            start_ms: self.start_ms,
            duration_ms: self.duration_ms,
            append: self.append,
            segs: match self.segs {
                Some(v) => Some(strings_view(v@)),
                None => None,
            },
        }
    }
}

/// A JSON3 caption document: its events in order.
#[derive(Clone, Debug, PartialEq, Eq)]
pub struct Json3Caption {
    pub events: Vec<Json3Event>,
}

pub open spec fn event_views(v: Seq<Json3Event>) -> Seq<Json3EventView> {
    v.map_values(|e: Json3Event| e@)
}

/// The segments of an event, joined with nothing between them.
pub open spec fn concat(segs: Seq<Seq<char>>) -> Seq<char>
    decreases segs.len(),
{
    if segs.len() == 0 {
        Seq::empty()
    } else {
        concat(segs.drop_last()) + segs.last()
    }
}

/// The cues read so far, after one more event.
pub open spec fn json3_step(cues: Seq<AcquiredCueView>, e: Json3EventView) -> Result<
    Seq<AcquiredCueView>,
    ProviderErrorView,
> {
    match e.segs {
        None => Ok(cues),
        Some(segs) => {
            let text = concat(segs);
            if is_blank(text) {
                Ok(cues)
            } else {
                match e.start_ms {
                    None => Err(ProviderErrorView::InvalidCaptions("contain an untimed text event")),
                    Some(start) => match e.duration_ms {
                        None => Err(
                            ProviderErrorView::InvalidCaptions("contain a text event without duration"),
                        ),
                        Some(d) => if d == 0 {
                            Err(
                                ProviderErrorView::InvalidCaptions(
                                    "contain a text event without duration",
                                ),
                            )
                        } else if start + d > u64::MAX {
                            Err(ProviderErrorView::InvalidCaptions("contain a timestamp overflow"))
                        } else if e.append == Some(1u8) {
                            if cues.len() == 0 {
                                Err(
                                    ProviderErrorView::InvalidCaptions(
                                        "begin with an append-only text event",
                                    ),
                                )
                            } else {
                                let p = cues.last();
                                let end = (start + d) as u64;
                                Ok(
                                    cues.drop_last().push(
                                        AcquiredCueView {
                                            start_ms: p.start_ms,
                                            end_ms: if end > p.end_ms {
                                                end
                                            } else {
                                                p.end_ms
                                            },
                                            text: p.text + text,
                                        },
                                    ),
                                )
                            }
                        } else {
                            Ok(
                                cues.push(
                                    AcquiredCueView {
                                        start_ms: start,
                                        end_ms: (start + d) as u64,
                                        text,
                                    },
                                ),
                            )
                        },
                    },
                }
            }
        },
    }
}

/// The cues read from `events`, or the first event's error.
pub open spec fn json3_fold(events: Seq<Json3EventView>) -> Result<
    Seq<AcquiredCueView>,
    ProviderErrorView,
>
    decreases events.len(),
{
    if events.len() == 0 {
        Ok(Seq::empty())
    } else {
        match json3_fold(events.drop_last()) {
            Err(e) => Err(e),
            Ok(cues) => json3_step(cues, events.last()),
        }
    }
}

pub open spec fn trim_cue(c: AcquiredCueView) -> AcquiredCueView {
    AcquiredCueView { start_ms: c.start_ms, end_ms: c.end_ms, text: trim(c.text) }
}

/// What reading a JSON3 document gives: one cue per timed text event (an
/// append event extends the cue before it), each text trimmed; blank
/// events are skipped, and a document with no text is refused.
pub open spec fn json3_outcome(events: Seq<Json3EventView>) -> Result<
    Seq<AcquiredCueView>,
    ProviderErrorView,
> {
    match json3_fold(events) {
        Err(e) => Err(e),
        Ok(cues) => if cues.len() == 0 {
            Err(ProviderErrorView::InvalidCaptions("contain no text evidence"))
        } else {
            Ok(cues.map_values(|c: AcquiredCueView| trim_cue(c)))
        },
    }
}

proof fn lemma_fold_error_persists(evs: Seq<Json3EventView>, n: int)
    requires
        0 <= n <= evs.len(),
        json3_fold(evs.take(n)) is Err,
    ensures
        json3_fold(evs) == json3_fold(evs.take(n)),
    decreases evs.len(),
{
    if n == evs.len() {
        assert(evs.take(n) =~= evs);
    } else {
        assert(evs.drop_last().take(n) =~= evs.take(n));
        lemma_fold_error_persists(evs.drop_last(), n);
    }
}

fn joined_segments(segs: &Vec<String>) -> (r: Vec<char>)
    ensures
        r@ == concat(strings_view(segs@)),
{
    let ghost sv = strings_view(segs@);
    let mut r: Vec<char> = Vec::new();
    let mut i: usize = 0;
    while i < segs.len()
        invariant
            i <= segs.len(),
            sv == strings_view(segs@),
            r@ == concat(sv.take(i as int)),
        decreases segs.len() - i,
    {
        assert(sv.take(i + 1).drop_last() =~= sv.take(i as int));
        push_str(&mut r, segs[i].as_str());
        i = i + 1;
    }
    assert(sv.take(segs.len() as int) =~= sv);
    r
}

fn blank_chars(s: &Vec<char>) -> (r: bool)
    ensures
        r == is_blank(s@),
{
    let mut i: usize = 0;
    while i < s.len()
        invariant
            i <= s.len(),
            forall|k: int| 0 <= k < i ==> crate::text::is_whitespace_char(#[trigger] s@[k]),
        decreases s.len() - i,
    {
        if !crate::text::is_whitespace(s[i]) {
            return false;
        }
        i = i + 1;
    }
    true
}

/// Reads the cues of a JSON3 caption document.
pub fn parse_json3(caption: &Json3Caption) -> (r: Result<Vec<AcquiredCue>, ProviderError>)
    ensures
        match json3_outcome(event_views(caption.events@)) {
            Ok(cues) => r matches Ok(v) && cue_views(v@) == cues,
            Err(e) => r matches Err(x) && x@ == e,
        },
{
    let ghost evs = event_views(caption.events@);
    let mut cues: Vec<AcquiredCue> = Vec::new();
    let mut i: usize = 0;
    assert(evs.take(0) =~= Seq::<Json3EventView>::empty());
    assert(cue_views(cues@) =~= Seq::<AcquiredCueView>::empty());
    while i < caption.events.len()
        invariant
            i <= caption.events.len(),
            evs == event_views(caption.events@),
            evs.len() == caption.events@.len(),
            json3_fold(evs.take(i as int)) == Ok::<Seq<AcquiredCueView>, ProviderErrorView>(
                cue_views(cues@),
            ),
        decreases caption.events.len() - i,
    {
        let event = &caption.events[i];
        assert(evs.take(i + 1).drop_last() =~= evs.take(i as int));
        assert(evs.take(i + 1).last() == event@);
        proof {
            if json3_fold(evs.take(i + 1)) is Err {
                lemma_fold_error_persists(evs, i + 1);
            }
        }
        let ghost before = cue_views(cues@);
        if let Some(segs) = &event.segs {
            let text = joined_segments(segs);
            if !blank_chars(&text) {
                let start = match event.start_ms {
                    Some(s) => s,
                    None => {
                        return Err(ProviderError::InvalidCaptions("contain an untimed text event"));
                    },
                };
                let d = match event.duration_ms {
                    Some(d) => d,
                    None => {
                        return Err(
                            ProviderError::InvalidCaptions("contain a text event without duration"),
                        );
                    },
                };
                if d == 0 {
                    return Err(
                        ProviderError::InvalidCaptions("contain a text event without duration"),
                    );
                }
                if d > u64::MAX - start {
                    return Err(ProviderError::InvalidCaptions("contain a timestamp overflow"));
                }
                let end = start + d;
                if event.append == Some(1u8) {
                    let p = match cues.pop() {
                        Some(p) => p,
                        None => {
                            return Err(
                                ProviderError::InvalidCaptions("begin with an append-only text event"),
                            );
                        },
                    };
                    assert(cue_views(cues@) =~= before.drop_last());
                    let mut joined = chars_of(p.text.as_str());
                    let mut k: usize = 0;
                    let ghost head = joined@;
                    while k < text.len()
                        invariant
                            k <= text.len(),
                            joined@ == head + text@.take(k as int),
                        decreases text.len() - k,
                    {
                        joined.push(text[k]);
                        k = k + 1;
                        assert(joined@ =~= head + text@.take(k as int));
                    }
                    assert(text@.take(text.len() as int) =~= text@);
                    let ghost mid = cues@;
                    cues.push(
                        AcquiredCue {
                            start_ms: p.start_ms,
                            end_ms: if end > p.end_ms {
                                end
                            } else {
                                p.end_ms
                            },
                            text: string_of(&joined),
                        },
                    );
                    assert(cue_views(cues@) =~= cue_views(mid).push(cues@.last()@));
                } else {
                    cues.push(AcquiredCue { start_ms: start, end_ms: end, text: string_of(&text) });
                    assert(cue_views(cues@) =~= before.push(cues@.last()@));
                }
            }
        }
        i = i + 1;
    }
    assert(evs.take(caption.events.len() as int) =~= evs);
    if cues.len() == 0 {
        return Err(ProviderError::InvalidCaptions("contain no text evidence"));
    }
    let ghost all = cue_views(cues@);
    let mut out: Vec<AcquiredCue> = Vec::new();
    let mut j: usize = 0;
    while j < cues.len()
        invariant
            j <= cues.len(),
            all == cue_views(cues@),
            cue_views(out@) == all.take(j as int).map_values(|c: AcquiredCueView| trim_cue(c)),
        decreases cues.len() - j,
    {
        let c = &cues[j];
        let t = trimmed(&chars_of(c.text.as_str()));
        let ghost before = cue_views(out@);
        out.push(AcquiredCue { start_ms: c.start_ms, end_ms: c.end_ms, text: string_of(&t) });
        assert(cue_views(out@) =~= before.push(trim_cue(all[j as int])));
        assert(all.take(j + 1).map_values(|c: AcquiredCueView| trim_cue(c)) =~= all.take(
            j as int,
        ).map_values(|c: AcquiredCueView| trim_cue(c)).push(trim_cue(all[j as int])));
        j = j + 1;
    }
    assert(all.take(cues.len() as int) =~= all);
    Ok(out)
}

/// Reads a JSON3 caption document and groups its rolling fragments into
/// readable passages.
pub fn parse_json3_passages(caption: &Json3Caption) -> (r: Result<Vec<AcquiredCue>, ProviderError>)
    ensures
        match json3_outcome(event_views(caption.events@)) {
            Ok(cues) => r matches Ok(v) && cue_views(v@) == passages(cues, PASSAGE_TARGET_MS),
            Err(e) => r matches Err(x) && x@ == e,
        },
{
    let cues = parse_json3(caption)?;
    Ok(segment_cues(cues, PASSAGE_TARGET_MS))
}


/// The options every `yt-dlp` run starts with: no configuration, plugins,
/// remote components, cache or cookies, no colour, a single video, stop at
/// the first error, and nothing downloaded but what is asked for.
pub open spec fn base_args() -> Seq<Seq<char>> {
    seq![
        "--ignore-config"@,
        "--no-plugin-dirs"@,
        "--no-remote-components"@,
        "--no-cache-dir"@,
        "--no-cookies"@,
        "--no-cookies-from-browser"@,
        "--color"@,
        "never"@,
        "--no-playlist"@,
        "--abort-on-error"@,
        "--skip-download"@,
    ]
}

/// The run that dumps a source's metadata as one JSON document; the URL
/// comes after `--`, so it is never read as an option.
pub open spec fn metadata_args(canonical_url: Seq<char>) -> Seq<Seq<char>> {
    base_args() + seq!["--dump-single-json"@, "--"@, canonical_url]
}

pub open spec fn subs_flag(kind: SelectedCaptionKind) -> Seq<char> {
    match kind {
        SelectedCaptionKind::Manual => "--write-subs"@,
        SelectedCaptionKind::Generated => "--write-auto-subs"@,
    }
}

/// The run that writes exactly the selected caption track, as JSON3, into
/// the workspace.
pub open spec fn caption_args(
    canonical_url: Seq<char>,
    language: Seq<char>,
    kind: SelectedCaptionKind,
    workspace: Seq<char>,
) -> Seq<Seq<char>> {
    base_args() + seq![
        "--no-progress"@,
        "--no-overwrites"@,
        subs_flag(kind),
        "--sub-langs"@,
        seq!['^'] + language + seq!['$'],
        "--sub-format"@,
        "json3"@,
        "--output"@,
        "subtitle:"@ + workspace + "/caption.%(ext)s"@,
        "--"@,
        canonical_url,
    ]
}

/// The options every `yt-dlp` run starts with.
pub fn base_arguments() -> (r: Vec<String>)
    ensures
        strings_view(r@) == base_args(),
{
    let mut r: Vec<String> = Vec::new();
    r.push("--ignore-config".to_owned());
    r.push("--no-plugin-dirs".to_owned());
    r.push("--no-remote-components".to_owned());
    r.push("--no-cache-dir".to_owned());
    r.push("--no-cookies".to_owned());
    r.push("--no-cookies-from-browser".to_owned());
    r.push("--color".to_owned());
    r.push("never".to_owned());
    r.push("--no-playlist".to_owned());
    r.push("--abort-on-error".to_owned());
    r.push("--skip-download".to_owned());
    assert(strings_view(r@) =~= base_args());
    r
}

/// The arguments of the metadata run.
pub fn metadata_arguments(canonical_url: &str) -> (r: Vec<String>)
    ensures
        strings_view(r@) == metadata_args(canonical_url@),
{
    let mut r = base_arguments();
    let ghost base = r@;
    r.push("--dump-single-json".to_owned());
    r.push("--".to_owned());
    r.push(canonical_url.to_owned());
    assert(strings_view(r@) =~= metadata_args(canonical_url@)) by {
        assert(strings_view(r@).take(11) =~= strings_view(base));
    }
    r
}

/// The arguments of the caption run for the selected track.
pub fn caption_arguments(source: &CanonicalSource, selected: &SelectedCaption, workspace: &str) -> (r:
    Vec<String>)
    ensures
        strings_view(r@) == caption_args(
            source.canonical_url@,
            selected.language@,
            selected.kind,
            workspace@,
        ),
{
    let mut r = base_arguments();
    let ghost base = r@;
    r.push("--no-progress".to_owned());
    r.push("--no-overwrites".to_owned());
    r.push(
        match selected.kind {
            SelectedCaptionKind::Manual => "--write-subs".to_owned(),
            SelectedCaptionKind::Generated => "--write-auto-subs".to_owned(),
        },
    );
    r.push("--sub-langs".to_owned());
    let mut pattern: Vec<char> = Vec::new();
    pattern.push('^');
    push_str(&mut pattern, selected.language.as_str());
    pattern.push('$');
    assert(pattern@ =~= seq!['^'] + selected.language@ + seq!['$']);
    r.push(string_of(&pattern));
    r.push("--sub-format".to_owned());
    r.push("json3".to_owned());
    r.push("--output".to_owned());
    let mut output = chars_of("subtitle:");
    push_str(&mut output, workspace);
    push_str(&mut output, "/caption.%(ext)s");
    r.push(string_of(&output));
    r.push("--".to_owned());
    r.push(source.canonical_url.clone());
    assert(strings_view(r@) =~= caption_args(
        source.canonical_url@,
        selected.language@,
        selected.kind,
        workspace@,
    )) by {
        assert(strings_view(r@).take(11) =~= strings_view(base));
    }
    r
}


/// The creator a compiled source records: the channel when there is one,
/// else the uploader, and only if it is not blank.
pub open spec fn creator_of(m: YtDlpMetadataView) -> Option<Seq<char>> {
    let named = match m.channel {
        Some(c) => Some(c),
        None => m.uploader,
    };
    match named {
        Some(v) => if is_blank(v) {
            None
        } else {
            Some(v)
        },
        None => None,
    }
}

/// How a source acquired through `yt-dlp` records its acquisition.
pub open spec fn ytdlp_acquisition(m: YtDlpMetadataView) -> AcquisitionProvenanceView {
    AcquisitionProvenanceView {
        adapter: "yt_dlp"@,
        source_format: "youtube_json3"@,
        tool: match m.version {
            Some(v) => Some(ToolProvenanceView { name: "yt-dlp"@, version: v }),
            None => None,
        },
    }
}

/// How far caption timing may stray past the edges of a source and still
/// count as reaching them.
pub const EDGE_DRIFT_MS: u64 = 2_000;

/// A cue whose end strays past the source's duration, cut back to it.
pub open spec fn clamp_cue(c: AcquiredCueView, duration_ms: u64) -> AcquiredCueView {
    AcquiredCueView {
        start_ms: c.start_ms,
        end_ms: if c.end_ms > duration_ms {
            duration_ms
        } else {
            c.end_ms
        },
        text: c.text,
    }
}

pub open spec fn clamped(cues: Seq<AcquiredCueView>, duration_ms: u64) -> Seq<AcquiredCueView> {
    cues.map_values(|c: AcquiredCueView| clamp_cue(c, duration_ms))
}

/// Whether some cue ends further past the source than the drift allows.
pub open spec fn outside_source(cues: Seq<AcquiredCueView>, duration_ms: u64) -> bool {
    exists|i: int| 0 <= i < cues.len() && (#[trigger] cues[i]).end_ms > duration_ms + EDGE_DRIFT_MS
}

/// The coverage that caption timing shows: from the first cue's start to
/// the last cue's end, each taken to the source's edge when it lies within
/// the drift of it; complete only when the whole source is reached.
pub open spec fn coverage_of(cues: Seq<AcquiredCueView>, duration_ms: u64) -> Coverage {
    if cues.len() == 0 {
        Coverage {
            metadata: true,
            transcript_start_ms: 0,
            transcript_end_ms: 0,
            transcript_complete: duration_ms == 0,
            visuals_processed: false,
        }
    } else {
        let first = cues[0].start_ms;
        let last = cues.last().end_ms;
        let start: u64 = if first <= EDGE_DRIFT_MS {
            0
        } else {
            first
        };
        let end: u64 = if last + EDGE_DRIFT_MS >= duration_ms {
            duration_ms
        } else {
            last
        };
        Coverage {
            metadata: true,
            transcript_start_ms: start,
            transcript_end_ms: end,
            transcript_complete: start == 0 && end == duration_ms,
            visuals_processed: false,
        }
    }
}

/// What an acquisition hands to compilation: the cues, their coverage of
/// the source as their timing shows it, and no processed visuals.
pub open spec fn acquired_view(
    source: CanonicalSourceView,
    m: YtDlpMetadataView,
    language: Seq<char>,
    kind: SelectedCaptionKind,
    cues: Seq<AcquiredCueView>,
    duration_ms: u64,
    creator: Seq<char>,
) -> AcquiredSourceView {
    AcquiredSourceView {
        source,
        metadata: SourceMetadataView { title: m.title, creator, duration_ms },
        transcript: TranscriptProvenanceView { language, captions: kind_provenance(kind) },
        cues,
        coverage: coverage_of(cues, duration_ms),
        acquisition: ytdlp_acquisition(m),
    }
}

/// What compiling an acquisition gives: a creator is required, a cue
/// ending past the source (beyond the drift) is refused, cue ends within
/// the drift are cut back to the duration, and the rest is compilation.
pub open spec fn acquisition_outcome(
    source: CanonicalSourceView,
    m: YtDlpMetadataView,
    language: Seq<char>,
    kind: SelectedCaptionKind,
    cues: Seq<AcquiredCueView>,
    duration_ms: u64,
) -> Result<CompiledSourceView, ProviderErrorView> {
    match creator_of(m) {
        None => Err(ProviderErrorView::InvalidMetadata("does not contain a creator")),
        Some(creator) => if outside_source(cues, duration_ms) {
            Err(ProviderErrorView::InvalidCaptions("contain a timestamp outside the source"))
        } else {
            match compile_outcome(
                acquired_view(
                    source,
                    m,
                    language,
                    kind,
                    clamped(cues, duration_ms),
                    duration_ms,
                    creator,
                ),
            ) {
                Ok(c) => Ok(c),
                Err(e) => Err(ProviderErrorView::Compile(e)),
            }
        },
    }
}

/// Compiles what was acquired for a source: its checked metadata, the
/// selected track, the passages read from it and its duration.
#[verifier::loop_isolation(false)]
pub fn compile_acquisition(
    source: &CanonicalSource,
    metadata: YtDlpMetadata,
    selected: SelectedCaption,
    cues: Vec<AcquiredCue>,
    duration_ms: u64,
) -> (r: Result<CompiledSource, ProviderError>)
    ensures
        match acquisition_outcome(
            source@,
            metadata@,
            selected.language@,
            selected.kind,
            cue_views(cues@),
            duration_ms,
        ) {
            Ok(c) => r matches Ok(x) && x@ == c,
            Err(e) => r matches Err(x) && x@ == e,
        },
{
    let ghost m = metadata@;
    let named = match metadata.channel {
        Some(c) => Some(c),
        None => metadata.uploader,
    };
    let creator = match named {
        Some(v) => {
            if blank(v.as_str()) {
                return Err(ProviderError::InvalidMetadata("does not contain a creator"));
            }
            v
        },
        None => {
            return Err(ProviderError::InvalidMetadata("does not contain a creator"));
        },
    };
    let ghost cs = cue_views(cues@);
    let mut kept: Vec<AcquiredCue> = Vec::new();
    let mut i: usize = 0;
    while i < cues.len()
        invariant
            i <= cues.len(),
            cs == cue_views(cues@),
            cs.len() == cues@.len(),
            forall|k: int| 0 <= k < i ==> (#[trigger] cs[k]).end_ms <= duration_ms + EDGE_DRIFT_MS,
            cue_views(kept@) == clamped(cs.take(i as int), duration_ms),
        decreases cues.len() - i,
    {
        let c = &cues[i];
        assert(cs[i as int] == c@);
        if c.end_ms > duration_ms && c.end_ms - duration_ms > EDGE_DRIFT_MS {
            assert(outside_source(cs, duration_ms));
            return Err(ProviderError::InvalidCaptions("contain a timestamp outside the source"));
        }
        let ghost before = cue_views(kept@);
        kept.push(
            AcquiredCue {
                start_ms: c.start_ms,
                end_ms: if c.end_ms > duration_ms {
                    duration_ms
                } else {
                    c.end_ms
                },
                text: c.text.clone(),
            },
        );
        assert(cue_views(kept@) =~= before.push(clamp_cue(cs[i as int], duration_ms)));
        assert(clamped(cs.take(i + 1), duration_ms) =~= clamped(cs.take(i as int), duration_ms).push(
            clamp_cue(cs[i as int], duration_ms),
        ));
        i = i + 1;
    }
    assert(cs.take(cues.len() as int) =~= cs);
    assert(!outside_source(cs, duration_ms));
    let ghost kv = cue_views(kept@);
    let coverage = if kept.len() == 0 {
        Coverage {
            metadata: true,
            transcript_start_ms: 0,
            transcript_end_ms: 0,
            transcript_complete: duration_ms == 0,
            visuals_processed: false,
        }
    } else {
        let first = kept[0].start_ms;
        let last = kept[kept.len() - 1].end_ms;
        assert(kv[0].start_ms == first);
        assert(kv.last().end_ms == last);
        let start: u64 = if first <= EDGE_DRIFT_MS {
            0
        } else {
            first
        };
        let end: u64 = if last >= duration_ms || duration_ms - last <= EDGE_DRIFT_MS {
            duration_ms
        } else {
            last
        };
        Coverage {
            metadata: true,
            transcript_start_ms: start,
            transcript_end_ms: end,
            transcript_complete: start == 0 && end == duration_ms,
            visuals_processed: false,
        }
    };
    assert(coverage == coverage_of(kv, duration_ms));
    let captions = selected.provenance();
    let tool = match metadata.version {
        Some(v) => Some(ToolProvenance { name: "yt-dlp".to_owned(), version: v }),
        None => None,
    };
    let acquired = AcquiredSource {
        source: source.duplicate(),
        metadata: SourceMetadata { title: metadata.title, creator, duration_ms },
        transcript: TranscriptProvenance { language: selected.language, captions },
        cues: kept,
        coverage,
        acquisition: AcquisitionProvenance {
            adapter: "yt_dlp".to_owned(),
            source_format: "youtube_json3".to_owned(),
            tool,
        },
    };
    match compile_source(acquired) {
        Ok(c) => Ok(c),
        Err(e) => Err(ProviderError::Compile(e)),
    }
}

/// Checks what an acquisition asks for before anything runs: the source
/// must resolve, and a requested language must be a valid tag.
pub fn ingest_request(input: &str, preferred_language: Option<&str>) -> (r: Result<
    (CanonicalSource, Option<String>),
    ProviderError,
>)
    ensures
        match resolve_id(input@) {
            Err(e) => r matches Err(x) && x@ == ProviderErrorView::InvalidSource(e),
            Ok(id) => match preferred_language {
                Some(l) => if valid_language(l@) {
                    r matches Ok((c, Some(x))) && c.source_id@ == id && c.canonical_url@
                        == watch_url(id) && c.provider == crate::source::SourceProvider::YouTube
                        && x@ == l@
                } else {
                    r matches Err(x) && x@ == ProviderErrorView::InvalidLanguage(l@)
                },
                None => r matches Ok((c, None)) && c.source_id@ == id && c.canonical_url@
                    == watch_url(id) && c.provider == crate::source::SourceProvider::YouTube,
            },
        },
{
    let source = match canonicalise_source(input) {
        Ok(s) => s,
        Err(e) => {
            return Err(ProviderError::InvalidSource(e));
        },
    };
    match preferred_language {
        Some(l) => {
            let checked = validate_language(l)?;
            Ok((source, Some(checked.to_owned())))
        },
        None => Ok((source, None)),
    }
}

/// Settles an acquisition with the cleanup of its workspace: the
/// acquisition's own error comes first, then a failed cleanup.
pub fn settle(result: Result<CompiledSource, ProviderError>, cleanup: Result<(), String>) -> (r: Result<
    CompiledSource,
    ProviderError,
>)
    ensures
        match (result, cleanup) {
            (Ok(c), Ok(())) => r == Ok::<CompiledSource, ProviderError>(c),
            (Err(e), _) => r == Err::<CompiledSource, ProviderError>(e),
            (Ok(_), Err(d)) => r matches Err(ProviderError::Cleanup(x)) && x@ == d@,
        },
{
    match (result, cleanup) {
        (Ok(c), Ok(())) => Ok(c),
        (Err(e), _) => Err(e),
        (Ok(_), Err(d)) => Err(ProviderError::Cleanup(d)),
    }
}

/// What a running stage must do at one poll: stop when it was cancelled,
/// stop when its time is up, else keep waiting.
pub fn stage_check(stage: &'static str, cancelled: bool, elapsed_ms: u64, timeout_ms: u64) -> (r: Option<
    ProviderError,
>)
    ensures
        cancelled ==> r == Some(ProviderError::Cancelled(stage)),
        !cancelled && elapsed_ms >= timeout_ms ==> r == Some(
            ProviderError::TimedOut { stage, timeout_ms },
        ),
        !cancelled && elapsed_ms < timeout_ms ==> r is None,
{
    if cancelled {
        Some(ProviderError::Cancelled(stage))
    } else if elapsed_ms >= timeout_ms {
        Some(ProviderError::TimedOut { stage, timeout_ms })
    } else {
        None
    }
}

/// The result of a stage whose process exited: success, or a failure
/// classified from its diagnostics.
pub fn stage_outcome(stage: &'static str, success: bool, diagnostics: &[u8]) -> (r: Result<
    (),
    ProviderError,
>)
    ensures
        success ==> r == Ok::<(), ProviderError>(()),
        !success ==> r == Err::<(), ProviderError>(
            ProviderError::ProcessFailed { stage, kind: failure_kind(diagnostics@) },
        ),
{
    if success {
        Ok(())
    } else {
        Err(ProviderError::ProcessFailed { stage, kind: classify_failure(diagnostics) })
    }
}

/// The error for a process that could not be started: a missing
/// executable, or the system's reason.
pub fn spawn_error(not_found: bool, detail: String) -> (r: ProviderError)
    ensures
        not_found ==> r == ProviderError::ToolUnavailable,
        !not_found ==> (r matches ProviderError::Io { stage, detail: d } && stage == "starting yt-dlp"
            && d@ == detail@),
{
    if not_found {
        ProviderError::ToolUnavailable
    } else {
        ProviderError::Io { stage: "starting yt-dlp", detail }
    }
}

/// Whether `s` begins with `p`.
pub open spec fn has_prefix(s: Seq<char>, p: Seq<char>) -> bool {
    p.len() <= s.len() && s.take(p.len() as int) == p
}

/// Whether `s` ends with `p`.
pub open spec fn has_suffix(s: Seq<char>, p: Seq<char>) -> bool {
    p.len() <= s.len() && s.skip(s.len() - p.len()) == p
}

fn starts_with_chars(s: &Vec<char>, p: &Vec<char>) -> (r: bool)
    ensures
        r == has_prefix(s@, p@),
{
    if p.len() > s.len() {
        return false;
    }
    let mut i: usize = 0;
    while i < p.len()
        invariant
            i <= p.len() <= s.len(),
            forall|k: int| 0 <= k < i ==> s@[k] == p@[k],
        decreases p.len() - i,
    {
        if s[i] != p[i] {
            assert(s@.take(p.len() as int)[i as int] != p@[i as int]);
            return false;
        }
        i = i + 1;
    }
    assert(s@.take(p.len() as int) =~= p@);
    true
}

fn ends_with_chars(s: &Vec<char>, p: &Vec<char>) -> (r: bool)
    ensures
        r == has_suffix(s@, p@),
{
    if p.len() > s.len() {
        return false;
    }
    let off = s.len() - p.len();
    let mut i: usize = 0;
    while i < p.len()
        invariant
            i <= p.len() <= s.len(),
            off == s.len() - p.len(),
            forall|k: int| 0 <= k < i ==> s@[off + k] == p@[k],
        decreases p.len() - i,
    {
        if s[off + i] != p[i] {
            assert(s@.skip(off as int)[i as int] != p@[i as int]);
            return false;
        }
        i = i + 1;
    }
    assert(s@.skip(off as int) =~= p@);
    true
}

/// Whether a workspace file is named like a JSON3 caption artifact.
pub fn is_caption_artifact_name(name: &str) -> (r: bool)
    ensures
        r == (has_prefix(name@, "caption."@) && has_suffix(name@, ".json3"@)),
{
    let n = chars_of(name);
    starts_with_chars(&n, &chars_of("caption.")) && ends_with_chars(&n, &chars_of(".json3"))
}

/// Whether workspace entry `e` (a name, and whether it is a regular file
/// that is not a link) is a caption artifact.
pub open spec fn is_artifact(e: (Seq<char>, bool)) -> bool {
    e.1 && has_prefix(e.0, "caption."@) && has_suffix(e.0, ".json3"@)
}

pub open spec fn entry_views(v: Seq<(String, bool)>) -> Seq<(Seq<char>, bool)> {
    v.map_values(|e: (String, bool)| (e.0@, e.1))
}

/// The number of caption artifacts among the first `n` entries.
pub open spec fn artifact_count(es: Seq<(Seq<char>, bool)>, n: int) -> nat
    decreases n,
{
    if n <= 0 {
        0
    } else if is_artifact(es[n - 1]) {
        artifact_count(es, n - 1) + 1
    } else {
        artifact_count(es, n - 1)
    }
}

/// Picks the one caption artifact among the workspace entries: none is a
/// missing artifact, more than one is unexpected.
pub fn caption_artifact(entries: &Vec<(String, bool)>) -> (r: Result<usize, ProviderError>)
    ensures
        artifact_count(entry_views(entries@), entries@.len() as int) == 0 ==> r == Err::<
            usize,
            ProviderError,
        >(ProviderError::ArtifactMissing("JSON3 caption file")),
        artifact_count(entry_views(entries@), entries@.len() as int) > 1 ==> r == Err::<
            usize,
            ProviderError,
        >(ProviderError::UnexpectedArtifact("set of JSON3 caption files")),
        artifact_count(entry_views(entries@), entries@.len() as int) == 1 ==> (r matches Ok(k) && k
            < entries@.len() && is_artifact(entry_views(entries@)[k as int])),
{
    let ghost es = entry_views(entries@);
    let mut found: Option<usize> = None;
    let mut count: usize = 0;
    let mut i: usize = 0;
    while i < entries.len()
        invariant
            i <= entries.len(),
            es == entry_views(entries@),
            es.len() == entries@.len(),
            count == artifact_count(es, i as int),
            count <= i,
            count == 0 ==> found is None,
            count >= 1 ==> (found matches Some(k) && k < entries@.len() && is_artifact(es[k as int])),
        decreases entries.len() - i,
    {
        let (name, regular) = &entries[i];
        assert(es[i as int] == (name@, *regular));
        if *regular && is_caption_artifact_name(name.as_str()) {
            if count == 0 {
                found = Some(i);
            }
            count = count + 1;
        }
        i = i + 1;
    }
    if count == 0 {
        Err(ProviderError::ArtifactMissing("JSON3 caption file"))
    } else if count > 1 {
        Err(ProviderError::UnexpectedArtifact("set of JSON3 caption files"))
    } else {
        match found {
            Some(k) => Ok(k),
            None => Err(ProviderError::ArtifactMissing("JSON3 caption file")),
        }
    }
}

/// Checks a provider output before it is read: it must be a regular file,
/// not a link, and within its size limit.
pub fn check_output(artifact: &'static str, regular_file: bool, len: u64, limit: u64) -> (r: Result<
    (),
    ProviderError,
>)
    ensures
        !regular_file ==> r == Err::<(), ProviderError>(ProviderError::UnexpectedArtifact(artifact)),
        regular_file && len > limit ==> r == Err::<(), ProviderError>(
            ProviderError::OutputTooLarge(artifact),
        ),
        regular_file && len <= limit ==> r == Ok::<(), ProviderError>(()),
{
    if !regular_file {
        Err(ProviderError::UnexpectedArtifact(artifact))
    } else if len > limit {
        Err(ProviderError::OutputTooLarge(artifact))
    } else {
        Ok(())
    }
}


pub open spec fn failure_reason(kind: ProviderFailureKind) -> Seq<char> {
    match kind {
        ProviderFailureKind::SourceUnavailable => "the source is unavailable"@,
        ProviderFailureKind::SourcePrivate => "the source is private"@,
        ProviderFailureKind::AuthenticationRequired => "the source requires authentication"@,
        ProviderFailureKind::ProviderFailure => "the source provider failed"@,
    }
}

/// The reader-facing text of a provider error.
pub open spec fn provider_error_text(e: ProviderErrorView) -> Seq<char> {
    match e {
        ProviderErrorView::InvalidSource(error) => crate::source::source_error_text(error),
        ProviderErrorView::InvalidLanguage(language) => "caption language '"@ + language
            + "' is invalid"@,
        ProviderErrorView::ToolUnavailable =>
            "yt-dlp is not installed or is not available on the configured executable path"@,
        ProviderErrorView::TimedOut { stage, timeout_ms } => stage@ + " exceeded its "@
            + crate::text::decimal((timeout_ms / 1000) as nat) + " second time limit"@,
        ProviderErrorView::Cancelled(stage) => stage@ + " was cancelled"@,
        ProviderErrorView::ProcessFailed { stage, kind } => stage@ + " failed: "@ + failure_reason(
            kind,
        ),
        ProviderErrorView::ArtifactMissing(artifact) => "yt-dlp did not produce the expected "@
            + artifact@,
        ProviderErrorView::UnexpectedArtifact(artifact) => "yt-dlp produced an unexpected "@
            + artifact@,
        ProviderErrorView::OutputTooLarge(artifact) => "yt-dlp "@ + artifact@
            + " exceeded the safety limit"@,
        ProviderErrorView::InvalidMetadata(reason) => "yt-dlp metadata "@ + reason@,
        ProviderErrorView::IdentityMismatch => "yt-dlp returned metadata for a different source"@,
        ProviderErrorView::LiveSourceUnsupported =>
            "live and upcoming sources are not supported yet"@,
        ProviderErrorView::CaptionsUnavailable { requested, available } => match requested {
            Some(r) => "captions in '"@ + r + "' are unavailable; available languages: "@ + joined(
                available,
                ", "@,
            ),
            None => "the source has no supported captions"@,
        },
        ProviderErrorView::CaptionFormatUnavailable(language) => "captions in '"@ + language
            + "' are available but not in the required JSON3 format"@,
        ProviderErrorView::InvalidCaptions(reason) => "yt-dlp captions "@ + reason@,
        ProviderErrorView::Io { stage, detail } => stage@ + " failed: "@ + detail,
        ProviderErrorView::Compile(error) => crate::compile::compile_error_text(error),
        ProviderErrorView::Cleanup(detail) => "temporary source cleanup failed: "@ + detail,
    }
}

fn push_joined(out: &mut Vec<char>, items: &Vec<String>, sep: &str)
    ensures
        final(out)@ == old(out)@ + joined(strings_view(items@), sep@),
{
    let ghost start = out@;
    let ghost v = strings_view(items@);
    let mut i: usize = 0;
    while i < items.len()
        invariant
            i <= items.len(),
            v == strings_view(items@),
            out@ == start + joined(v.take(i as int), sep@),
        decreases items.len() - i,
    {
        let ghost before = out@;
        assert(v.take(i + 1).drop_last() =~= v.take(i as int));
        if i > 0 {
            push_str(out, sep);
        }
        push_str(out, items[i].as_str());
        proof {
            if i == 0 {
                assert(v.take(1) =~= seq![v[0]]);
                assert(v.take(0) =~= Seq::<Seq<char>>::empty());
            }
        }
        assert(out@ =~= start + joined(v.take(i + 1), sep@));
        i = i + 1;
    }
    assert(v.take(items.len() as int) =~= v);
}

impl ProviderError {
    /// What went wrong, for a reader.
    pub fn message(&self) -> (r: String)
        ensures
            r@ == provider_error_text(self@),
    {
        let mut out: Vec<char> = Vec::new();
        match self {
            ProviderError::InvalidSource(error) => {
                push_str(&mut out, error.message().as_str());
            },
            ProviderError::InvalidLanguage(language) => {
                push_str(&mut out, "caption language '");
                push_str(&mut out, language.as_str());
                push_str(&mut out, "' is invalid");
            },
            ProviderError::ToolUnavailable => {
                push_str(
                    &mut out,
                    "yt-dlp is not installed or is not available on the configured executable path",
                );
            },
            ProviderError::TimedOut { stage, timeout_ms } => {
                push_str(&mut out, stage);
                push_str(&mut out, " exceeded its ");
                crate::text::push_decimal(&mut out, *timeout_ms / 1000);
                push_str(&mut out, " second time limit");
            },
            ProviderError::Cancelled(stage) => {
                push_str(&mut out, stage);
                push_str(&mut out, " was cancelled");
            },
            ProviderError::ProcessFailed { stage, kind } => {
                push_str(&mut out, stage);
                push_str(&mut out, " failed: ");
                push_str(
                    &mut out,
                    match kind {
                        ProviderFailureKind::SourceUnavailable => "the source is unavailable",
                        ProviderFailureKind::SourcePrivate => "the source is private",
                        ProviderFailureKind::AuthenticationRequired =>
                            "the source requires authentication",
                        ProviderFailureKind::ProviderFailure => "the source provider failed",
                    },
                );
            },
            ProviderError::ArtifactMissing(artifact) => {
                push_str(&mut out, "yt-dlp did not produce the expected ");
                push_str(&mut out, artifact);
            },
            ProviderError::UnexpectedArtifact(artifact) => {
                push_str(&mut out, "yt-dlp produced an unexpected ");
                push_str(&mut out, artifact);
            },
            ProviderError::OutputTooLarge(artifact) => {
                push_str(&mut out, "yt-dlp ");
                push_str(&mut out, artifact);
                push_str(&mut out, " exceeded the safety limit");
            },
            ProviderError::InvalidMetadata(reason) => {
                push_str(&mut out, "yt-dlp metadata ");
                push_str(&mut out, reason);
            },
            ProviderError::IdentityMismatch => {
                push_str(&mut out, "yt-dlp returned metadata for a different source");
            },
            ProviderError::LiveSourceUnsupported => {
                push_str(&mut out, "live and upcoming sources are not supported yet");
            },
            ProviderError::CaptionsUnavailable { requested, available } => match requested {
                Some(r) => {
                    push_str(&mut out, "captions in '");
                    push_str(&mut out, r.as_str());
                    push_str(&mut out, "' are unavailable; available languages: ");
                    push_joined(&mut out, available, ", ");
                },
                None => {
                    push_str(&mut out, "the source has no supported captions");
                },
            },
            ProviderError::CaptionFormatUnavailable(language) => {
                push_str(&mut out, "captions in '");
                push_str(&mut out, language.as_str());
                push_str(&mut out, "' are available but not in the required JSON3 format");
            },
            ProviderError::InvalidCaptions(reason) => {
                push_str(&mut out, "yt-dlp captions ");
                push_str(&mut out, reason);
            },
            ProviderError::Io { stage, detail } => {
                push_str(&mut out, stage);
                push_str(&mut out, " failed: ");
                push_str(&mut out, detail.as_str());
            },
            ProviderError::Compile(error) => {
                push_str(&mut out, error.message().as_str());
            },
            ProviderError::Cleanup(detail) => {
                push_str(&mut out, "temporary source cleanup failed: ");
                push_str(&mut out, detail.as_str());
            },
        }
        assert(out@ =~= provider_error_text(self@));
        string_of(&out)
    }
}


proof fn lemma_fold_well_timed(events: Seq<Json3EventView>)
    ensures
        json3_fold(events) matches Ok(cues) ==> crate::compile::well_timed(cues),
    decreases events.len(),
{
    if events.len() > 0 {
        lemma_fold_well_timed(events.drop_last());
        match json3_fold(events.drop_last()) {
            Err(_) => {},
            Ok(cues) => {
                match json3_step(cues, events.last()) {
                    Err(_) => {},
                    Ok(next) => {
                        assert forall|i: int| 0 <= i < next.len() implies (
                        #[trigger] next[i]).start_ms < next[i].end_ms by {
                            // A step keeps every earlier cue but possibly the last, which
                            // an append extends to the later of the two ends.
                            if i < cues.len() - 1 || (i < cues.len() && next.len() > cues.len()) {
                                assert(next[i] == cues[i]);
                            } else if i < cues.len() {
                                assert(cues[i].start_ms < cues[i].end_ms);
                            }
                        }
                    },
                }
            },
        }
    }
}

/// Captions read from JSON3 are well timed: every cue, appended to or not,
/// ends after it starts, and so does every passage made from them.
pub proof fn law_json3_cues_are_well_timed(events: Seq<Json3EventView>)
    ensures
        json3_outcome(events) matches Ok(cues) ==> crate::compile::well_timed(cues)
            && crate::compile::well_timed(passages(cues, PASSAGE_TARGET_MS)),
{
    lemma_fold_well_timed(events);
    match json3_outcome(events) {
        Ok(cues) => {
            let raw = json3_fold(events)->Ok_0;
            assert forall|i: int| 0 <= i < cues.len() implies (#[trigger] cues[i]).start_ms
                < cues[i].end_ms by {
                assert(cues[i] == trim_cue(raw[i]));
                assert(raw[i].start_ms < raw[i].end_ms);
            }
            crate::compile::law_passages_are_well_timed(cues, PASSAGE_TARGET_MS);
        },
        Err(_) => {},
    }
}

} // verus!
