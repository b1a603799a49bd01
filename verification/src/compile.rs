//! Validation and compilation of acquired captions into the evidence model.
use vstd::prelude::*;
use vstd::utf8::encode_utf8;

use sha2::{Digest, Sha256};

use crate::evidence::{
    AcquisitionProvenance, AcquisitionProvenanceView, CaptionProvenance,
    CompiledSource, CompiledSourceView, Coverage, Evidence, EvidenceView, SourceMetadata,
    SourceMetadataView, TranscriptProvenance, TranscriptProvenanceView,
};
use crate::source::{CanonicalSource, CanonicalSourceView, SourceProvider};
use crate::text::{blank, chars_of, decimal, is_blank, lower_hex, push_decimal, push_lower_hex, string_of};

verus! {

broadcast use vstd::string::group_string_axioms;

/// The most cues a source may hold.
pub const MAX_CUE_COUNT: usize = 1_000_000;

/// The most UTF-8 bytes one cue's text may hold.
pub const MAX_CUE_TEXT_BYTES: usize = 1_000_000;

/// One acquired caption cue.
#[derive(Clone, Debug, PartialEq, Eq)]
pub struct AcquiredCue {
    pub start_ms: u64,
    pub end_ms: u64,
    pub text: String,
}

pub struct AcquiredCueView {
    pub start_ms: u64,
    pub end_ms: u64,
    pub text: Seq<char>,
}

impl View for AcquiredCue {
    type V = AcquiredCueView;

    open spec fn view(&self) -> AcquiredCueView {
        AcquiredCueView { start_ms: self.start_ms, end_ms: self.end_ms, text: self.text@ }
    }
}

pub open spec fn cue_views(cues: Seq<AcquiredCue>) -> Seq<AcquiredCueView> {
    cues.map_values(|c: AcquiredCue| c@)
}

/// Everything acquired for one source, before validation.
#[derive(Clone, Debug, PartialEq, Eq)]
pub struct AcquiredSource {
    pub source: CanonicalSource,
    pub metadata: SourceMetadata,
    pub transcript: TranscriptProvenance,
    pub cues: Vec<AcquiredCue>,
    pub coverage: Coverage,
    pub acquisition: AcquisitionProvenance,
}

pub struct AcquiredSourceView {
    pub source: CanonicalSourceView,
    pub metadata: SourceMetadataView,
    pub transcript: TranscriptProvenanceView,
    pub cues: Seq<AcquiredCueView>,
    pub coverage: Coverage,
    pub acquisition: AcquisitionProvenanceView,
}

impl View for AcquiredSource {
    type V = AcquiredSourceView;

    open spec fn view(&self) -> AcquiredSourceView {
        AcquiredSourceView {
            source: self.source@,
            metadata: self.metadata@,
            transcript: self.transcript@,
            cues: cue_views(self.cues@),
            coverage: self.coverage,
            acquisition: self.acquisition@,
        }
    }
}

#[derive(Clone, Debug, PartialEq, Eq)]
pub enum CompileError {
    EmptyMetadata(&'static str),
    InvalidDuration,
    InvalidCoverage,
    NoEvidence,
    TooManyCues,
    InvalidCue { index: usize, reason: &'static str },
    InconsistentCompiledSource,
}

/// The first metadata field that is blank, or a zero duration.
pub open spec fn metadata_error(a: AcquiredSourceView) -> Option<CompileError> {
    if is_blank(a.metadata.title) {
        Some(CompileError::EmptyMetadata("title"))
    } else if is_blank(a.metadata.creator) {
        Some(CompileError::EmptyMetadata("creator"))
    } else if is_blank(a.transcript.language) {
        Some(CompileError::EmptyMetadata("language"))
    } else if is_blank(a.acquisition.adapter) {
        Some(CompileError::EmptyMetadata("adapter"))
    } else if is_blank(a.acquisition.source_format) {
        Some(CompileError::EmptyMetadata("source_format"))
    } else if a.metadata.duration_ms == 0 {
        Some(CompileError::InvalidDuration)
    } else {
        None
    }
}

/// Coverage must include metadata and lie, in order, within the duration.
pub open spec fn coverage_valid(a: AcquiredSourceView) -> bool {
    &&& a.coverage.metadata
    &&& a.coverage.transcript_start_ms <= a.coverage.transcript_end_ms
    &&& a.coverage.transcript_end_ms <= a.metadata.duration_ms
}

/// Why a cue is invalid, given the start of the cue before it.
pub open spec fn cue_problem(c: AcquiredCueView, previous_start: Option<u64>) -> Option<&'static str> {
    if is_blank(c.text) {
        Some("has no text")
    } else if encode_utf8(c.text).len() > MAX_CUE_TEXT_BYTES {
        Some("contains too much text")
    } else if c.start_ms >= c.end_ms {
        Some("must end after it starts")
    } else if previous_start matches Some(p) && c.start_ms < p {
        Some("is out of source order")
    } else {
        None
    }
}

pub open spec fn previous_start(cues: Seq<AcquiredCueView>, i: int) -> Option<u64> {
    if i == 0 {
        None
    } else {
        Some(cues[i - 1].start_ms)
    }
}

/// The first invalid cue at or after `i`, with its reason.
pub open spec fn first_cue_problem(cues: Seq<AcquiredCueView>, i: int) -> Option<
    (int, &'static str),
>
    decreases cues.len() - i,
{
    if i < 0 || i >= cues.len() {
        None
    } else if cue_problem(cues[i], previous_start(cues, i)) is Some {
        Some((i, cue_problem(cues[i], previous_start(cues, i))->0))
    } else {
        first_cue_problem(cues, i + 1)
    }
}

pub open spec fn cues_error(cues: Seq<AcquiredCueView>) -> Option<CompileError> {
    if cues.len() == 0 {
        Some(CompileError::NoEvidence)
    } else if cues.len() > MAX_CUE_COUNT {
        Some(CompileError::TooManyCues)
    } else {
        match first_cue_problem(cues, 0) {
            Some((i, reason)) => Some(CompileError::InvalidCue { index: i as usize, reason }),
            None => None,
        }
    }
}

/// The eight big-endian bytes of `x`.
pub open spec fn be_bytes(x: u64) -> Seq<u8> {
    seq![
        (x >> 56u64) as u8,
        (x >> 48u64) as u8,
        (x >> 40u64) as u8,
        (x >> 32u64) as u8,
        (x >> 24u64) as u8,
        (x >> 16u64) as u8,
        (x >> 8u64) as u8,
        x as u8,
    ]
}

/// A text framed by its UTF-8 length, so that adjacent fields cannot blur.
pub open spec fn framed(text: Seq<char>) -> Seq<u8> {
    be_bytes(encode_utf8(text).len() as u64) + encode_utf8(text)
}

pub open spec fn provider_name(p: SourceProvider) -> Seq<char> {
    match p {
        SourceProvider::YouTube => "youtube"@,
    }
}

pub open spec fn captions_name(c: CaptionProvenance) -> Seq<char> {
    match c {
        CaptionProvenance::Manual => "manual"@,
        CaptionProvenance::Generated => "generated"@,
        CaptionProvenance::LocalTranscription => "local_transcription"@,
    }
}

pub open spec fn flag_byte(b: bool) -> u8 {
    if b {
        1
    } else {
        0
    }
}

pub open spec fn cue_bytes(cues: Seq<AcquiredCueView>) -> Seq<u8>
    decreases cues.len(),
{
    if cues.len() == 0 {
        Seq::empty()
    } else {
        cue_bytes(cues.drop_last()) + be_bytes(cues.last().start_ms) + be_bytes(cues.last().end_ms)
            + framed(cues.last().text)
    }
}

/// The bytes hashed into a source version: every field that carries
/// evidence, each framed, and nothing about how it was acquired.
pub open spec fn version_preimage(a: AcquiredSourceView) -> Seq<u8> {
    framed("oriel.compiled-source.v1"@) + framed(provider_name(a.source.provider)) + framed(
        a.source.source_id,
    ) + framed(a.metadata.title) + framed(a.metadata.creator) + be_bytes(a.metadata.duration_ms)
        + framed(a.transcript.language) + framed(captions_name(a.transcript.captions)) + be_bytes(
        a.coverage.transcript_start_ms,
    ) + be_bytes(a.coverage.transcript_end_ms) + seq![flag_byte(a.coverage.transcript_complete)]
        + seq![flag_byte(a.coverage.visuals_processed)] + cue_bytes(a.cues)
}

/// The SHA-256 digest of a byte sequence, as `sha2::Sha256` computes it.
pub uninterp spec fn sha256_digest(data: Seq<u8>) -> Seq<u8>;

/// `sha2::Sha256::digest`. The contract claims that the result is the
/// digest named by [`sha256_digest`] and that it is 32 bytes long (the
/// output size of SHA-256).
#[verifier::external_body]
fn sha256(data: &[u8]) -> (d: Vec<u8>)
    ensures
        d@ == sha256_digest(data@),
        d@.len() == 32,
{
    Sha256::digest(data).to_vec()
}

/// The semantic version of an acquired source.
pub open spec fn version_string(a: AcquiredSourceView) -> Seq<char> {
    "source-v1:sha256:"@ + lower_hex(sha256_digest(version_preimage(a)))
}

/// The identifier of the `i`th evidence span of a source.
pub open spec fn evidence_id(source_id: Seq<char>, i: int) -> Seq<char> {
    source_id + seq![':'] + decimal(i as nat)
}

pub open spec fn evidence_from_cue(a: AcquiredSourceView, i: int) -> EvidenceView {
    EvidenceView {
        id: evidence_id(a.source.source_id, i),
        start_ms: a.cues[i].start_ms,
        end_ms: a.cues[i].end_ms,
        text: a.cues[i].text,
        transcript: a.transcript,
    }
}

/// The compiled form of a valid acquired source.
pub open spec fn compiled_view(a: AcquiredSourceView) -> CompiledSourceView {
    CompiledSourceView {
        source: a.source,
        source_version: version_string(a),
        metadata: a.metadata,
        evidence: Seq::new(a.cues.len(), |i: int| evidence_from_cue(a, i)),
        coverage: a.coverage,
        acquisition: a.acquisition,
    }
}

/// What compiling an acquired source gives.
pub open spec fn compile_outcome(a: AcquiredSourceView) -> Result<CompiledSourceView, CompileError> {
    if metadata_error(a) is Some {
        Err(metadata_error(a)->0)
    } else if !coverage_valid(a) {
        Err(CompileError::InvalidCoverage)
    } else if cues_error(a.cues) is Some {
        Err(cues_error(a.cues)->0)
    } else {
        Ok(compiled_view(a))
    }
}

fn validate_metadata(acquired: &AcquiredSource) -> (r: Result<(), CompileError>)
    ensures
        match metadata_error(acquired@) {
            Some(e) => r == Err::<(), CompileError>(e),
            None => r is Ok,
        },
{
    if blank(acquired.metadata.title.as_str()) {
        return Err(CompileError::EmptyMetadata("title"));
    }
    if blank(acquired.metadata.creator.as_str()) {
        return Err(CompileError::EmptyMetadata("creator"));
    }
    if blank(acquired.transcript.language.as_str()) {
        return Err(CompileError::EmptyMetadata("language"));
    }
    if blank(acquired.acquisition.adapter.as_str()) {
        return Err(CompileError::EmptyMetadata("adapter"));
    }
    if blank(acquired.acquisition.source_format.as_str()) {
        return Err(CompileError::EmptyMetadata("source_format"));
    }
    if acquired.metadata.duration_ms == 0 {
        return Err(CompileError::InvalidDuration);
    }
    Ok(())
}

fn validate_coverage(acquired: &AcquiredSource) -> (r: Result<(), CompileError>)
    ensures
        coverage_valid(acquired@) ==> r is Ok,
        !coverage_valid(acquired@) ==> r == Err::<(), CompileError>(CompileError::InvalidCoverage),
{
    let coverage = &acquired.coverage;
    if !coverage.metadata || coverage.transcript_start_ms > coverage.transcript_end_ms
        || coverage.transcript_end_ms > acquired.metadata.duration_ms {
        return Err(CompileError::InvalidCoverage);
    }
    Ok(())
}

/// The UTF-8 length of a string.
pub(crate) fn utf8_len(s: &str) -> (n: usize)
    ensures
        n == encode_utf8(s@).len(),
{
    s.as_bytes().len()
}

fn validate_cues(cues: &Vec<AcquiredCue>) -> (r: Result<(), CompileError>)
    ensures
        match cues_error(cue_views(cues@)) {
            Some(e) => r == Err::<(), CompileError>(e),
            None => r is Ok,
        },
{
    let ghost cs = cue_views(cues@);
    if cues.len() == 0 {
        return Err(CompileError::NoEvidence);
    }
    if cues.len() > MAX_CUE_COUNT {
        return Err(CompileError::TooManyCues);
    }
    let mut previous: Option<u64> = None;
    let mut i: usize = 0;
    while i < cues.len()
        invariant
            i <= cues.len(),
            cs == cue_views(cues@),
            cs.len() == cues@.len(),
            0 < cues.len() <= MAX_CUE_COUNT,
            first_cue_problem(cs, 0) == first_cue_problem(cs, i as int),
            previous == previous_start(cs, i as int),
        decreases cues.len() - i,
    {
        let cue = &cues[i];
        assert(cs[i as int] == cue@);
        let reason = if blank(cue.text.as_str()) {
            Some("has no text")
        } else if utf8_len(cue.text.as_str()) > MAX_CUE_TEXT_BYTES {
            Some("contains too much text")
        } else if cue.start_ms >= cue.end_ms {
            Some("must end after it starts")
        } else if match previous {
            Some(start) => cue.start_ms < start,
            None => false,
        } {
            Some("is out of source order")
        } else {
            None
        };
        assert(reason == cue_problem(cs[i as int], previous_start(cs, i as int)));
        if let Some(reason) = reason {
            assert(first_cue_problem(cs, i as int) == Some((i as int, reason)));
            return Err(CompileError::InvalidCue { index: i, reason });
        }
        previous = Some(cue.start_ms);
        i = i + 1;
    }
    Ok(())
}

fn push_be(out: &mut Vec<u8>, x: u64)
    ensures
        final(out)@ == old(out)@ + be_bytes(x),
{
    out.push((x >> 56u64) as u8);
    out.push((x >> 48u64) as u8);
    out.push((x >> 40u64) as u8);
    out.push((x >> 32u64) as u8);
    out.push((x >> 24u64) as u8);
    out.push((x >> 16u64) as u8);
    out.push((x >> 8u64) as u8);
    out.push(x as u8);
    assert(final(out)@ =~= old(out)@ + be_bytes(x));
}

fn push_framed(out: &mut Vec<u8>, text: &str)
    ensures
        final(out)@ == old(out)@ + framed(text@),
{
    let bytes = text.as_bytes();
    push_be(out, bytes.len() as u64);
    let ghost start = out@;
    let mut i: usize = 0;
    while i < bytes.len()
        invariant
            i <= bytes.len(),
            out@ == start + bytes@.take(i as int),
        decreases bytes.len() - i,
    {
        out.push(bytes[i]);
        i = i + 1;
        assert(out@ =~= start + bytes@.take(i as int));
    }
    assert(bytes@.take(bytes.len() as int) =~= bytes@);
    assert(final(out)@ =~= old(out)@ + framed(text@));
}

fn preimage(acquired: &AcquiredSource) -> (r: Vec<u8>)
    ensures
        r@ == version_preimage(acquired@),
{
    let ghost a = acquired@;
    let mut out: Vec<u8> = Vec::new();
    push_framed(&mut out, "oriel.compiled-source.v1");
    push_framed(
        &mut out,
        match acquired.source.provider {
            SourceProvider::YouTube => "youtube",
        },
    );
    push_framed(&mut out, acquired.source.source_id.as_str());
    push_framed(&mut out, acquired.metadata.title.as_str());
    push_framed(&mut out, acquired.metadata.creator.as_str());
    push_be(&mut out, acquired.metadata.duration_ms);
    push_framed(&mut out, acquired.transcript.language.as_str());
    push_framed(
        &mut out,
        match acquired.transcript.captions {
            CaptionProvenance::Manual => "manual",
            CaptionProvenance::Generated => "generated",
            CaptionProvenance::LocalTranscription => "local_transcription",
        },
    );
    push_be(&mut out, acquired.coverage.transcript_start_ms);
    push_be(&mut out, acquired.coverage.transcript_end_ms);
    out.push(if acquired.coverage.transcript_complete {
        1u8
    } else {
        0u8
    });
    out.push(if acquired.coverage.visuals_processed {
        1u8
    } else {
        0u8
    });
    let ghost head = out@;
    assert(version_preimage(a) =~= head + cue_bytes(a.cues));
    let mut i: usize = 0;
    while i < acquired.cues.len()
        invariant
            i <= acquired.cues.len(),
            a == acquired@,
            out@ == head + cue_bytes(a.cues.take(i as int)),
        decreases acquired.cues.len() - i,
    {
        let cue = &acquired.cues[i];
        assert(a.cues.take(i + 1).drop_last() =~= a.cues.take(i as int));
        assert(a.cues[i as int] == cue@);
        push_be(&mut out, cue.start_ms);
        push_be(&mut out, cue.end_ms);
        push_framed(&mut out, cue.text.as_str());
        i = i + 1;
        assert(out@ =~= head + cue_bytes(a.cues.take(i as int)));
    }
    assert(a.cues.take(acquired.cues.len() as int) =~= a.cues);
    out
}


fn source_version(acquired: &AcquiredSource) -> (v: String)
    ensures
        v@ == version_string(acquired@),
        v@.len() == 81,
{
    let bytes = preimage(acquired);
    let digest = sha256(&bytes);
    let mut out: Vec<char> = Vec::new();
    crate::text::push_str(&mut out, "source-v1:sha256:");
    push_lower_hex(&mut out, &digest);
    proof {
        crate::text::lemma_lower_hex_len(digest@);
        reveal_strlit("source-v1:sha256:");
    }
    string_of(&out)
}

/// The identifier of the `index`th evidence span of a source.
fn evidence_id_of(source_id: &str, index: usize) -> (id: Vec<char>)
    ensures
        id@ == evidence_id(source_id@, index as int),
{
    let mut out = chars_of(source_id);
    out.push(':');
    push_decimal(&mut out, index as u64);
    out
}

/// Validates acquired evidence and compiles it into the shared source model.
///
/// Metadata is checked first (title, creator, language, adapter, source
/// format must not be blank; the duration must be positive), then coverage,
/// then the cues in order. A valid source becomes one evidence span per cue,
/// identified as `<source id>:<index>`, and a version that hashes every
/// evidence-bearing field but not the acquisition record.
pub fn compile_source(acquired: AcquiredSource) -> (r: Result<CompiledSource, CompileError>)
    ensures
        match compile_outcome(acquired@) {
            Err(e) => r == Err::<CompiledSource, CompileError>(e),
            Ok(v) => r matches Ok(c) && c@ == v,
        },
        r matches Ok(c) ==> c.source_version@.len() == 81,
{
    validate_metadata(&acquired)?;
    validate_coverage(&acquired)?;
    validate_cues(&acquired.cues)?;
    let ghost a = acquired@;
    let source_version = source_version(&acquired);
    let mut evidence: Vec<Evidence> = Vec::new();
    let mut i: usize = 0;
    while i < acquired.cues.len()
        invariant
            i <= acquired.cues.len(),
            a == acquired@,
            evidence@.len() == i,
            forall|k: int| 0 <= k < i ==> (#[trigger] evidence@[k])@ == evidence_from_cue(a, k),
        decreases acquired.cues.len() - i,
    {
        let cue = &acquired.cues[i];
        assert(a.cues[i as int] == cue@);
        let id = evidence_id_of(acquired.source.source_id.as_str(), i);
        evidence.push(
            Evidence {
                id: string_of(&id),
                start_ms: cue.start_ms,
                end_ms: cue.end_ms,
                text: cue.text.clone(),
                transcript: acquired.transcript.duplicate(),
            },
        );
        i = i + 1;
    }
    let compiled = CompiledSource {
        source: acquired.source,
        source_version,
        metadata: acquired.metadata,
        evidence,
        coverage: acquired.coverage,
        acquisition: acquired.acquisition,
    };
    assert(compiled@.evidence =~= compiled_view(a).evidence);
    Ok(compiled)
}

/// Whether the `i`th evidence span carries its expected identifier and the
/// transcript provenance of the first span.
pub open spec fn entry_consistent(c: CompiledSourceView, i: int) -> bool {
    &&& c.evidence[i].id == evidence_id(c.source.source_id, i)
    &&& c.evidence[i].transcript == c.evidence[0].transcript
}

/// The acquired source that a compiled source claims to have come from.
pub open spec fn decomposed(c: CompiledSourceView) -> AcquiredSourceView {
    AcquiredSourceView {
        source: c.source,
        metadata: c.metadata,
        transcript: c.evidence[0].transcript,
        cues: c.evidence.map_values(
            |e: EvidenceView| AcquiredCueView { start_ms: e.start_ms, end_ms: e.end_ms, text: e.text },
        ),
        coverage: c.coverage,
        acquisition: c.acquisition,
    }
}

/// Whether two compiled sources agree on everything but their version.
pub open spec fn same_but_version(v: CompiledSourceView, c: CompiledSourceView) -> bool {
    &&& v.source == c.source
    &&& v.metadata == c.metadata
    &&& v.evidence == c.evidence
    &&& v.coverage == c.coverage
    &&& v.acquisition == c.acquisition
}

/// A version a compiled source may carry: the one compilation gives it, or
/// the fixture version of its evidence, for a source compiled from a
/// fixture. Either is recomputed from the evidence itself.
pub open spec fn version_accepted(c: CompiledSourceView, compiled_version: Seq<char>) -> bool {
    ||| c.source_version == compiled_version
    ||| c.source_version == crate::fixture::evidence_fixture_version(c.source.source_id, c.evidence)
}

/// What revalidating a stored compiled source gives.
pub open spec fn verify_outcome(c: CompiledSourceView) -> Result<(), CompileError> {
    if c.evidence.len() == 0 {
        Err(CompileError::NoEvidence)
    } else if !(forall|i: int| 0 <= i < c.evidence.len() ==> entry_consistent(c, i)) {
        Err(CompileError::InconsistentCompiledSource)
    } else {
        match compile_outcome(decomposed(c)) {
            Err(e) => Err(e),
            Ok(v) => if same_but_version(v, c) && version_accepted(c, v.source_version) {
                Ok(())
            } else {
                Err(CompileError::InconsistentCompiledSource)
            },
        }
    }
}

/// Revalidates a compiled source loaded from an untrusted storage boundary.
///
/// It succeeds exactly when the source is what compiling its own evidence
/// would produce: identifiers, shared transcript provenance, validation
/// rules and the semantic version must all match.
pub fn verify_compiled_source(compiled: &CompiledSource) -> (r: Result<(), CompileError>)
    ensures
        r == verify_outcome(compiled@),
{
    let ghost c = compiled@;
    if compiled.evidence.len() == 0 {
        return Err(CompileError::NoEvidence);
    }
    let transcript = compiled.evidence[0].transcript.duplicate();
    assert(c.evidence[0] == compiled.evidence@[0]@);
    let mut cues: Vec<AcquiredCue> = Vec::new();
    let mut i: usize = 0;
    while i < compiled.evidence.len()
        invariant
            i <= compiled.evidence.len(),
            c == compiled@,
            c.evidence.len() == compiled.evidence@.len(),
            transcript@ == c.evidence[0].transcript,
            forall|k: int| 0 <= k < i ==> entry_consistent(c, k),
            cue_views(cues@) == decomposed(c).cues.take(i as int),
        decreases compiled.evidence.len() - i,
    {
        let e = &compiled.evidence[i];
        assert(c.evidence[i as int] == e@);
        let expected = evidence_id_of(compiled.source.source_id.as_str(), i);
        let id = chars_of(e.id.as_str());
        if !crate::text::chars_eq(&id, &expected) || !e.transcript.same_as(&transcript) {
            assert(!entry_consistent(c, i as int));
            return Err(CompileError::InconsistentCompiledSource);
        }
        let ghost before = cues@;
        cues.push(AcquiredCue { start_ms: e.start_ms, end_ms: e.end_ms, text: e.text.clone() });
        assert(cue_views(cues@) =~= decomposed(c).cues.take(i + 1)) by {
            assert(cue_views(cues@) =~= cue_views(before).push(cues@[i as int]@));
        }
        i = i + 1;
    }
    assert(decomposed(c).cues.take(compiled.evidence.len() as int) =~= decomposed(c).cues);
    let rebuilt = compile_source(
        AcquiredSource {
            source: compiled.source.duplicate(),
            metadata: compiled.metadata.duplicate(),
            transcript,
            cues,
            coverage: compiled.coverage,
            acquisition: compiled.acquisition.duplicate(),
        },
    )?;
    if !rebuilt.same_apart_from_version(compiled) {
        return Err(CompileError::InconsistentCompiledSource);
    }
    if crate::text::chars_eq(
        &chars_of(rebuilt.source_version.as_str()),
        &chars_of(compiled.source_version.as_str()),
    ) {
        return Ok(());
    }
    let fixture = crate::fixture::fixture_version_of(
        compiled.source.source_id.as_str(),
        &compiled.evidence,
    );
    if crate::text::chars_eq(
        &chars_of(fixture.as_str()),
        &chars_of(compiled.source_version.as_str()),
    ) {
        Ok(())
    } else {
        Err(CompileError::InconsistentCompiledSource)
    }
}


proof fn lemma_no_cue_problem_from(cues: Seq<AcquiredCueView>, k: int)
    requires
        0 <= k,
        forall|i: int|
            k <= i < cues.len() ==> cue_problem(#[trigger] cues[i], previous_start(cues, i)) is None,
    ensures
        first_cue_problem(cues, k) is None,
    decreases cues.len() - k,
{
    if k < cues.len() {
        lemma_no_cue_problem_from(cues, k + 1);
    }
}

/// Cues are in source order when no cue starts before the cue above it:
/// overlapping cues, and cues that share a start, are accepted. With
/// metadata and coverage in order, any non-empty list of cues that each
/// hold some text within the byte bound, end after they start, and start
/// no earlier than the cue before compiles, into one evidence span per cue.
pub proof fn law_cues_in_start_order_compile(a: AcquiredSourceView)
    requires
        metadata_error(a) is None,
        coverage_valid(a),
        0 < a.cues.len() <= MAX_CUE_COUNT,
        forall|i: int|
            0 <= i < a.cues.len() ==> {
                let c = #[trigger] a.cues[i];
                &&& !is_blank(c.text)
                &&& encode_utf8(c.text).len() <= MAX_CUE_TEXT_BYTES
                &&& c.start_ms < c.end_ms
            },
        forall|i: int| 0 < i < a.cues.len() ==> a.cues[i - 1].start_ms <= (#[trigger] a.cues[i]).start_ms,
    ensures
        compile_outcome(a) matches Ok(c) && c.evidence.len() == a.cues.len(),
{
    assert forall|i: int| 0 <= i < a.cues.len() implies cue_problem(
        #[trigger] a.cues[i],
        previous_start(a.cues, i),
    ) is None by {
        let c = a.cues[i];
        assert(!is_blank(c.text));
        if i > 0 {
            assert(a.cues[i - 1].start_ms <= a.cues[i].start_ms);
        }
    }
    lemma_no_cue_problem_from(a.cues, 0);
}

/// Compiling and then revalidating a source always succeeds: a compiled
/// source is exactly what compiling its own evidence produces.
pub proof fn law_compiled_sources_verify(a: AcquiredSourceView)
    requires
        compile_outcome(a) == Ok::<CompiledSourceView, CompileError>(compiled_view(a)),
    ensures
        verify_outcome(compiled_view(a)) == Ok::<(), CompileError>(()),
{
    let c = compiled_view(a);
    assert(c.evidence.len() == a.cues.len());
    assert forall|i: int| 0 <= i < c.evidence.len() implies entry_consistent(c, i) by {}
    let d = decomposed(c);
    assert(d.cues =~= a.cues);
    assert(d == a);
}

/// Revalidation accepts a compiled source only when it is the compilation
/// of its own evidence, field for field, and its version is one recomputed
/// from that evidence (the compiled version, or the fixture version of a
/// source compiled from a fixture); so any edit to a stored field is refused.
pub proof fn law_verified_sources_are_recompilations(c: CompiledSourceView)
    requires
        verify_outcome(c) is Ok,
    ensures
        compile_outcome(decomposed(c)) is Ok,
        same_but_version(compile_outcome(decomposed(c))->Ok_0, c),
        version_accepted(c, compile_outcome(decomposed(c))->Ok_0.source_version),
{
}

/// A source version depends on the evidence and never on how the source was
/// acquired: changing only the acquisition record (for instance the
/// provider tool's version) leaves the version unchanged.
pub proof fn law_version_ignores_acquisition(a: AcquiredSourceView, b: AcquiredSourceView)
    requires
        a.source == b.source,
        a.metadata == b.metadata,
        a.transcript == b.transcript,
        a.cues == b.cues,
        a.coverage == b.coverage,
    ensures
        version_string(a) == version_string(b),
{
}


/// Whether cue `c` still belongs to the passage that starts with `p`: it
/// starts less than `target` milliseconds after the passage does.
pub open spec fn joins_passage(p: AcquiredCueView, c: AcquiredCueView, target: u64) -> bool {
    if c.start_ms >= p.start_ms {
        c.start_ms - p.start_ms < target
    } else {
        0 < target
    }
}

/// A passage extended by one more cue: its start is kept, its end reaches
/// the later of the two ends, and the texts are joined by a space.
pub open spec fn merge_cue(p: AcquiredCueView, c: AcquiredCueView) -> AcquiredCueView {
    AcquiredCueView {
        start_ms: p.start_ms,
        end_ms: if c.end_ms > p.end_ms {
            c.end_ms
        } else {
            p.end_ms
        },
        text: p.text + seq![' '] + c.text,
    }
}

/// Passages finished so far and the passage being built, after `cues`.
pub open spec fn segment_state(cues: Seq<AcquiredCueView>, target: u64) -> (
    Seq<AcquiredCueView>,
    Option<AcquiredCueView>,
)
    decreases cues.len(),
{
    if cues.len() == 0 {
        (Seq::empty(), None)
    } else {
        let (done, open) = segment_state(cues.drop_last(), target);
        let c = cues.last();
        match open {
            None => (done, Some(c)),
            Some(p) => if joins_passage(p, c, target) {
                (done, Some(merge_cue(p, c)))
            } else {
                (done.push(p), Some(c))
            },
        }
    }
}

/// Rolling caption fragments grouped into readable passages of about
/// `target` milliseconds.
pub open spec fn passages(cues: Seq<AcquiredCueView>, target: u64) -> Seq<AcquiredCueView> {
    let (done, open) = segment_state(cues, target);
    match open {
        Some(p) => done.push(p),
        None => done,
    }
}

fn duplicate_cue(c: &AcquiredCue) -> (r: AcquiredCue)
    ensures
        r@ == c@,
{
    AcquiredCue { start_ms: c.start_ms, end_ms: c.end_ms, text: c.text.clone() }
}

/// Groups consecutive cues into passages: a cue joins the current passage
/// while it starts less than `target_ms` after the passage's start.
pub fn segment_cues(cues: Vec<AcquiredCue>, target_ms: u64) -> (r: Vec<AcquiredCue>)
    ensures
        cue_views(r@) == passages(cue_views(cues@), target_ms),
{
    let ghost cs = cue_views(cues@);
    let mut done: Vec<AcquiredCue> = Vec::new();
    let mut open: Option<AcquiredCue> = None;
    let mut i: usize = 0;
    while i < cues.len()
        invariant
            i <= cues.len(),
            cs == cue_views(cues@),
            (cue_views(done@), match open {
                Some(p) => Some(p@),
                None => None,
            }) == segment_state(cs.take(i as int), target_ms),
        decreases cues.len() - i,
    {
        let c = &cues[i];
        assert(cs.take(i + 1).drop_last() =~= cs.take(i as int));
        assert(cs.take(i + 1).last() == c@);
        let ghost before = done@;
        match open {
            None => {
                open = Some(duplicate_cue(c));
            },
            Some(p) => {
                let joins = if c.start_ms >= p.start_ms {
                    c.start_ms - p.start_ms < target_ms
                } else {
                    0 < target_ms
                };
                if joins {
                    let mut text: Vec<char> = chars_of(p.text.as_str());
                    text.push(' ');
                    crate::text::push_str(&mut text, c.text.as_str());
                    assert(text@ =~= p.text@ + seq![' '] + c.text@);
                    assert(joins_passage(p@, c@, target_ms));
                    open = Some(
                        AcquiredCue {
                            start_ms: p.start_ms,
                            end_ms: if c.end_ms > p.end_ms {
                                c.end_ms
                            } else {
                                p.end_ms
                            },
                            text: string_of(&text),
                        },
                    );
                } else {
                    assert(!joins_passage(p@, c@, target_ms));
                    done.push(p);
                    assert(cue_views(done@) =~= cue_views(before).push(p@));
                    open = Some(duplicate_cue(c));
                }
            },
        }
        i = i + 1;
    }
    assert(cs.take(cues.len() as int) =~= cs);
    let ghost before = done@;
    if let Some(p) = open {
        done.push(p);
        assert(cue_views(done@) =~= cue_views(before).push(p@));
    }
    done
}


/// The reader-facing text of a compilation error.
pub open spec fn compile_error_text(e: CompileError) -> Seq<char> {
    match e {
        CompileError::EmptyMetadata(field) => "source metadata '"@ + field@ + "' is empty"@,
        CompileError::InvalidDuration => "source duration must be greater than zero"@,
        CompileError::InvalidCoverage => "source coverage is invalid"@,
        CompileError::NoEvidence => "source contains no transcript evidence"@,
        CompileError::TooManyCues => "source contains too many transcript cues"@,
        CompileError::InvalidCue { index, reason } => "source cue "@ + decimal(index as nat) + " "@
            + reason@,
        CompileError::InconsistentCompiledSource =>
            "compiled source fields are internally inconsistent"@,
    }
}

impl CompileError {
    /// What went wrong, for a reader.
    pub fn message(&self) -> (r: String)
        ensures
            r@ == compile_error_text(*self),
    {
        match self {
            CompileError::EmptyMetadata(field) => {
                let mut out = chars_of("source metadata '");
                crate::text::push_str(&mut out, field);
                crate::text::push_str(&mut out, "' is empty");
                string_of(&out)
            },
            CompileError::InvalidDuration => "source duration must be greater than zero".to_owned(),
            CompileError::InvalidCoverage => "source coverage is invalid".to_owned(),
            CompileError::NoEvidence => "source contains no transcript evidence".to_owned(),
            CompileError::TooManyCues => "source contains too many transcript cues".to_owned(),
            CompileError::InvalidCue { index, reason } => {
                let mut out = chars_of("source cue ");
                push_decimal(&mut out, *index as u64);
                crate::text::push_str(&mut out, " ");
                crate::text::push_str(&mut out, reason);
                string_of(&out)
            },
            CompileError::InconsistentCompiledSource =>
                "compiled source fields are internally inconsistent".to_owned(),
        }
    }
}


/// The texts of a sequence of cues.
pub open spec fn cue_texts(cues: Seq<AcquiredCueView>) -> Seq<Seq<char>> {
    cues.map_values(|c: AcquiredCueView| c.text)
}

proof fn lemma_joined_push(v: Seq<Seq<char>>, x: Seq<char>, sep: Seq<char>)
    ensures
        crate::text::joined(v.push(x), sep) == if v.len() == 0 {
            x
        } else {
            crate::text::joined(v, sep) + sep + x
        },
{
    assert(v.push(x).drop_last() =~= v);
    if v.len() == 0 {
        assert(v.push(x)[0] == x);
    }
}

proof fn lemma_segment_state_text(cues: Seq<AcquiredCueView>, target: u64)
    ensures
        segment_state(cues, target).1 is None <==> cues.len() == 0,
        segment_state(cues, target).1 matches Some(p) ==> crate::text::joined(
            cue_texts(segment_state(cues, target).0.push(p)),
            seq![' '],
        ) == crate::text::joined(cue_texts(cues), seq![' ']),
    decreases cues.len(),
{
    if cues.len() > 0 {
        let prev = cues.drop_last();
        let c = cues.last();
        lemma_segment_state_text(prev, target);
        let (done, open) = segment_state(prev, target);
        assert(cue_texts(cues) =~= cue_texts(prev).push(c.text));
        lemma_joined_push(cue_texts(prev), c.text, seq![' ']);
        match open {
            None => {
                assert(prev.len() == 0);
                assert(done.len() == 0) by {
                    if prev.len() == 0 {
                        assert(segment_state(prev, target).0 =~= Seq::<AcquiredCueView>::empty());
                    }
                }
                assert(cue_texts(done.push(c)) =~= seq![c.text]);
                assert(cue_texts(prev) =~= Seq::<Seq<char>>::empty());
                lemma_joined_push(Seq::<Seq<char>>::empty(), c.text, seq![' ']);
                assert(seq![c.text] =~= Seq::<Seq<char>>::empty().push(c.text));
            },
            Some(p) => {
                if joins_passage(p, c, target) {
                    let m = merge_cue(p, c);
                    assert(cue_texts(done.push(m)) =~= cue_texts(done).push(m.text));
                    assert(cue_texts(done.push(p)) =~= cue_texts(done).push(p.text));
                    lemma_joined_push(cue_texts(done), m.text, seq![' ']);
                    lemma_joined_push(cue_texts(done), p.text, seq![' ']);
                    assert(m.text =~= p.text + seq![' '] + c.text);
                    if done.len() == 0 {
                        assert(crate::text::joined(cue_texts(done.push(m)), seq![' ']) =~= p.text
                            + seq![' '] + c.text);
                    } else {
                        assert(crate::text::joined(cue_texts(done.push(m)), seq![' '])
                            =~= crate::text::joined(cue_texts(done), seq![' ']) + seq![' '] + p.text
                            + seq![' '] + c.text);
                    }
                } else {
                    let d2 = done.push(p);
                    assert(cue_texts(d2.push(c)) =~= cue_texts(d2).push(c.text));
                    lemma_joined_push(cue_texts(d2), c.text, seq![' ']);
                }
            },
        }
    }
}

/// Grouping cues into passages keeps every word in order: the passages'
/// texts, joined by spaces, are the cues' texts joined by spaces.
pub proof fn law_passages_keep_every_word(cues: Seq<AcquiredCueView>, target: u64)
    ensures
        crate::text::joined(cue_texts(passages(cues, target)), seq![' ']) == crate::text::joined(
            cue_texts(cues),
            seq![' '],
        ),
{
    lemma_segment_state_text(cues, target);
    if cues.len() == 0 {
        assert(passages(cues, target) =~= Seq::<AcquiredCueView>::empty());
        assert(cue_texts(cues) =~= Seq::<Seq<char>>::empty());
        assert(cue_texts(passages(cues, target)) =~= Seq::<Seq<char>>::empty());
    }
}


proof fn lemma_be_bytes_injective(x: u64, y: u64)
    requires
        be_bytes(x) == be_bytes(y),
    ensures
        x == y,
{
    assert(be_bytes(x)[0] == be_bytes(y)[0]);
    assert(be_bytes(x)[1] == be_bytes(y)[1]);
    assert(be_bytes(x)[2] == be_bytes(y)[2]);
    assert(be_bytes(x)[3] == be_bytes(y)[3]);
    assert(be_bytes(x)[4] == be_bytes(y)[4]);
    assert(be_bytes(x)[5] == be_bytes(y)[5]);
    assert(be_bytes(x)[6] == be_bytes(y)[6]);
    assert(be_bytes(x)[7] == be_bytes(y)[7]);
    assert(((x >> 56u64) as u8 == (y >> 56u64) as u8 && (x >> 48u64) as u8 == (y >> 48u64) as u8
        && (x >> 40u64) as u8 == (y >> 40u64) as u8 && (x >> 32u64) as u8 == (y >> 32u64) as u8
        && (x >> 24u64) as u8 == (y >> 24u64) as u8 && (x >> 16u64) as u8 == (y >> 16u64) as u8
        && (x >> 8u64) as u8 == (y >> 8u64) as u8 && x as u8 == y as u8) ==> x == y)
        by (bit_vector);
}

proof fn lemma_split(a1: Seq<u8>, r1: Seq<u8>, a2: Seq<u8>, r2: Seq<u8>)
    requires
        a1 + r1 == a2 + r2,
        a1.len() == a2.len(),
    ensures
        a1 == a2,
        r1 == r2,
{
    assert(a1 =~= (a1 + r1).take(a1.len() as int));
    assert(a2 =~= (a2 + r2).take(a2.len() as int));
    assert(r1 =~= (a1 + r1).skip(a1.len() as int));
    assert(r2 =~= (a2 + r2).skip(a2.len() as int));
}

proof fn lemma_be_prefix(x: u64, r1: Seq<u8>, y: u64, r2: Seq<u8>)
    requires
        be_bytes(x) + r1 == be_bytes(y) + r2,
    ensures
        x == y,
        r1 == r2,
{
    lemma_split(be_bytes(x), r1, be_bytes(y), r2);
    lemma_be_bytes_injective(x, y);
}

proof fn lemma_framed_prefix(x: Seq<char>, r1: Seq<u8>, y: Seq<char>, r2: Seq<u8>)
    requires
        framed(x) + r1 == framed(y) + r2,
        encode_utf8(x).len() <= u64::MAX,
        encode_utf8(y).len() <= u64::MAX,
    ensures
        x == y,
        r1 == r2,
{
    let lx = encode_utf8(x).len() as u64;
    let ly = encode_utf8(y).len() as u64;
    assert(framed(x) + r1 =~= be_bytes(lx) + (encode_utf8(x) + r1));
    assert(framed(y) + r2 =~= be_bytes(ly) + (encode_utf8(y) + r2));
    lemma_be_prefix(lx, encode_utf8(x) + r1, ly, encode_utf8(y) + r2);
    lemma_split(encode_utf8(x), r1, encode_utf8(y), r2);
    vstd::utf8::encode_utf8_decode_utf8(x);
    vstd::utf8::encode_utf8_decode_utf8(y);
}

/// The bytes one cue contributes to a version.
pub open spec fn cue_item(c: AcquiredCueView) -> Seq<u8> {
    be_bytes(c.start_ms) + be_bytes(c.end_ms) + framed(c.text)
}

proof fn lemma_cue_bytes_front(cs: Seq<AcquiredCueView>)
    requires
        cs.len() > 0,
    ensures
        cue_bytes(cs) == cue_item(cs[0]) + cue_bytes(cs.drop_first()),
    decreases cs.len(),
{
    if cs.len() == 1 {
        assert(cs.drop_last() =~= Seq::<AcquiredCueView>::empty());
        assert(cs.drop_first() =~= Seq::<AcquiredCueView>::empty());
        assert(cue_bytes(cs) =~= cue_item(cs[0]) + cue_bytes(cs.drop_first()));
    } else {
        lemma_cue_bytes_front(cs.drop_last());
        assert(cs.drop_last().drop_first() =~= cs.drop_first().drop_last());
        assert(cs.drop_last()[0] == cs[0]);
        assert(cs.drop_first().last() == cs.last());
        assert(cue_bytes(cs) =~= cue_item(cs[0]) + cue_bytes(cs.drop_first()));
    }
}

proof fn lemma_cue_bytes_injective(c1: Seq<AcquiredCueView>, c2: Seq<AcquiredCueView>)
    requires
        cue_bytes(c1) == cue_bytes(c2),
        cue_bytes(c1).len() <= u64::MAX,
    ensures
        c1 == c2,
    decreases c1.len(),
{
    if c1.len() == 0 || c2.len() == 0 {
        if c1.len() > 0 {
            lemma_cue_bytes_front(c1);
        }
        if c2.len() > 0 {
            lemma_cue_bytes_front(c2);
        }
        assert(c1 =~= c2);
    } else {
        lemma_cue_bytes_front(c1);
        lemma_cue_bytes_front(c2);
        let (a, b) = (c1[0], c2[0]);
        let (ra, rb) = (cue_bytes(c1.drop_first()), cue_bytes(c2.drop_first()));
        assert(cue_item(a) + ra =~= be_bytes(a.start_ms) + (be_bytes(a.end_ms) + (framed(a.text)
            + ra)));
        assert(cue_item(b) + rb =~= be_bytes(b.start_ms) + (be_bytes(b.end_ms) + (framed(b.text)
            + rb)));
        lemma_be_prefix(a.start_ms, be_bytes(a.end_ms) + (framed(a.text) + ra), b.start_ms,
            be_bytes(b.end_ms) + (framed(b.text) + rb));
        lemma_be_prefix(a.end_ms, framed(a.text) + ra, b.end_ms, framed(b.text) + rb);
        lemma_framed_prefix(a.text, ra, b.text, rb);
        lemma_cue_bytes_injective(c1.drop_first(), c2.drop_first());
        assert(c1 =~= c2) by {
            assert(c1 =~= seq![a] + c1.drop_first());
            assert(c2 =~= seq![b] + c2.drop_first());
        }
    }
}

/// The bytes of a version after its domain label, field by field.
pub open spec fn version_fields(a: AcquiredSourceView) -> Seq<u8> {
    framed(provider_name(a.source.provider)) + fields_from_id(a)
}

pub open spec fn fields_from_id(a: AcquiredSourceView) -> Seq<u8> {
    framed(a.source.source_id) + fields_from_title(a)
}

pub open spec fn fields_from_title(a: AcquiredSourceView) -> Seq<u8> {
    framed(a.metadata.title) + fields_from_creator(a)
}

pub open spec fn fields_from_creator(a: AcquiredSourceView) -> Seq<u8> {
    framed(a.metadata.creator) + fields_from_duration(a)
}

pub open spec fn fields_from_duration(a: AcquiredSourceView) -> Seq<u8> {
    be_bytes(a.metadata.duration_ms) + fields_from_language(a)
}

pub open spec fn fields_from_language(a: AcquiredSourceView) -> Seq<u8> {
    framed(a.transcript.language) + fields_from_captions(a)
}

pub open spec fn fields_from_captions(a: AcquiredSourceView) -> Seq<u8> {
    framed(captions_name(a.transcript.captions)) + fields_from_start(a)
}

pub open spec fn fields_from_start(a: AcquiredSourceView) -> Seq<u8> {
    be_bytes(a.coverage.transcript_start_ms) + fields_from_end(a)
}

pub open spec fn fields_from_end(a: AcquiredSourceView) -> Seq<u8> {
    be_bytes(a.coverage.transcript_end_ms) + fields_from_flags(a)
}

pub open spec fn fields_from_flags(a: AcquiredSourceView) -> Seq<u8> {
    seq![flag_byte(a.coverage.transcript_complete)] + fields_from_visuals(a)
}

pub open spec fn fields_from_visuals(a: AcquiredSourceView) -> Seq<u8> {
    seq![flag_byte(a.coverage.visuals_processed)] + cue_bytes(a.cues)
}

#[verifier::rlimit(40)]
proof fn lemma_version_preimage_shape(a: AcquiredSourceView)
    ensures
        version_preimage(a) == framed("oriel.compiled-source.v1"@) + version_fields(a),
{
    assert(version_preimage(a) =~= framed("oriel.compiled-source.v1"@) + version_fields(a));
}

proof fn lemma_captions_name_injective(x: CaptionProvenance, y: CaptionProvenance)
    requires
        captions_name(x) == captions_name(y),
    ensures
        x == y,
{
    reveal_strlit("manual");
    reveal_strlit("generated");
    reveal_strlit("local_transcription");
    assert("manual"@.len() == 6);
    assert("generated"@.len() == 9);
    assert("local_transcription"@.len() == 19);
    match (x, y) {
        (CaptionProvenance::Manual, CaptionProvenance::Manual) => {},
        (CaptionProvenance::Generated, CaptionProvenance::Generated) => {},
        (CaptionProvenance::LocalTranscription, CaptionProvenance::LocalTranscription) => {},
        _ => {
            assert(captions_name(x).len() != captions_name(y).len());
        },
    }
}

proof fn lemma_framed_field(
    x: Seq<char>,
    ra: Seq<u8>,
    y: Seq<char>,
    rb: Seq<u8>,
    n: int,
)
    requires
        framed(x) + ra == framed(y) + rb,
        (framed(x) + ra).len() <= n,
        n <= u64::MAX,
    ensures
        x == y,
        ra == rb,
{
    lemma_framed_prefix(x, ra, y, rb);
}

/// A version's preimage is unambiguous: two acquired sources that frame
/// to the same bytes carry the same evidence, field for field (the source
/// by its provider and identifier, from which its link is derived), so
/// only a hash collision could give different evidence the same version. (The
/// preimage of a real source is far shorter than 2^64 bytes, the bound
/// under which every length frame is exact.)
pub proof fn law_version_preimage_is_unambiguous(a: AcquiredSourceView, b: AcquiredSourceView)
    requires
        version_preimage(a) == version_preimage(b),
        version_preimage(a).len() <= u64::MAX,
    ensures
        a.source.provider == b.source.provider,
        a.source.source_id == b.source.source_id,
        a.metadata == b.metadata,
        a.transcript == b.transcript,
        a.cues == b.cues,
        a.coverage.transcript_start_ms == b.coverage.transcript_start_ms,
        a.coverage.transcript_end_ms == b.coverage.transcript_end_ms,
        a.coverage.transcript_complete == b.coverage.transcript_complete,
        a.coverage.visuals_processed == b.coverage.visuals_processed,
{
    let n = version_preimage(a).len() as int;
    let d = framed("oriel.compiled-source.v1"@);
    lemma_version_preimage_shape(a);
    lemma_version_preimage_shape(b);
    lemma_split(d, version_fields(a), d, version_fields(b));
    lemma_framed_field(
        provider_name(a.source.provider),
        fields_from_id(a),
        provider_name(b.source.provider),
        fields_from_id(b),
        n,
    );
    lemma_framed_field(a.source.source_id, fields_from_title(a), b.source.source_id, fields_from_title(b), n);
    lemma_framed_field(a.metadata.title, fields_from_creator(a), b.metadata.title, fields_from_creator(b), n);
    lemma_framed_field(
        a.metadata.creator,
        fields_from_duration(a),
        b.metadata.creator,
        fields_from_duration(b),
        n,
    );
    lemma_be_prefix(
        a.metadata.duration_ms,
        fields_from_language(a),
        b.metadata.duration_ms,
        fields_from_language(b),
    );
    lemma_framed_field(
        a.transcript.language,
        fields_from_captions(a),
        b.transcript.language,
        fields_from_captions(b),
        n,
    );
    lemma_framed_field(
        captions_name(a.transcript.captions),
        fields_from_start(a),
        captions_name(b.transcript.captions),
        fields_from_start(b),
        n,
    );
    lemma_captions_name_injective(a.transcript.captions, b.transcript.captions);
    lemma_be_prefix(
        a.coverage.transcript_start_ms,
        fields_from_end(a),
        b.coverage.transcript_start_ms,
        fields_from_end(b),
    );
    lemma_be_prefix(
        a.coverage.transcript_end_ms,
        fields_from_flags(a),
        b.coverage.transcript_end_ms,
        fields_from_flags(b),
    );
    lemma_split(
        seq![flag_byte(a.coverage.transcript_complete)],
        fields_from_visuals(a),
        seq![flag_byte(b.coverage.transcript_complete)],
        fields_from_visuals(b),
    );
    assert(seq![flag_byte(a.coverage.transcript_complete)][0] == seq![
        flag_byte(b.coverage.transcript_complete),
    ][0]);
    lemma_split(
        seq![flag_byte(a.coverage.visuals_processed)],
        cue_bytes(a.cues),
        seq![flag_byte(b.coverage.visuals_processed)],
        cue_bytes(b.cues),
    );
    assert(seq![flag_byte(a.coverage.visuals_processed)][0] == seq![
        flag_byte(b.coverage.visuals_processed),
    ][0]);
    lemma_cue_bytes_injective(a.cues, b.cues);
}


/// Whether every cue ends after it starts.
pub open spec fn well_timed(cues: Seq<AcquiredCueView>) -> bool {
    forall|i: int| 0 <= i < cues.len() ==> (#[trigger] cues[i]).start_ms < cues[i].end_ms
}

proof fn lemma_segment_state_well_timed(cues: Seq<AcquiredCueView>, target: u64)
    requires
        well_timed(cues),
    ensures
        well_timed(segment_state(cues, target).0),
        segment_state(cues, target).1 matches Some(p) ==> p.start_ms < p.end_ms,
    decreases cues.len(),
{
    if cues.len() > 0 {
        let prev = cues.drop_last();
        assert(well_timed(prev)) by {
            assert forall|i: int| 0 <= i < prev.len() implies (#[trigger] prev[i]).start_ms
                < prev[i].end_ms by {
                assert(prev[i] == cues[i]);
            }
        }
        lemma_segment_state_well_timed(prev, target);
        assert(cues.last() == cues[cues.len() - 1]);
        let (done, open) = segment_state(prev, target);
        match open {
            None => {},
            Some(p) => {
                if !joins_passage(p, cues.last(), target) {
                    assert forall|i: int| 0 <= i < done.push(p).len() implies (#[trigger] done.push(
                        p,
                    )[i]).start_ms < done.push(p)[i].end_ms by {
                        if i < done.len() {
                            assert(done.push(p)[i] == done[i]);
                        }
                    }
                }
            },
        }
    }
}

/// Grouping keeps timing sound: when every cue ends after it starts, so
/// does every passage.
pub proof fn law_passages_are_well_timed(cues: Seq<AcquiredCueView>, target: u64)
    requires
        well_timed(cues),
    ensures
        well_timed(passages(cues, target)),
{
    lemma_segment_state_well_timed(cues, target);
    let (done, open) = segment_state(cues, target);
    match open {
        Some(p) => {
            assert forall|i: int| 0 <= i < done.push(p).len() implies (#[trigger] done.push(
                p,
            )[i]).start_ms < done.push(p)[i].end_ms by {
                if i < done.len() {
                    assert(done.push(p)[i] == done[i]);
                }
            }
        },
        None => {},
    }
}

} // verus!
