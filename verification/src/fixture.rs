//! Deterministic tab-separated caption fixtures for offline development.
use vstd::prelude::*;
use vstd::utf8::encode_utf8;

use crate::compile::evidence_id;
use crate::evidence::{
    AcquisitionProvenance, AcquisitionProvenanceView, CaptionProvenance, CompiledSource,
    CompiledSourceView, Coverage, Evidence, EvidenceView, SourceMetadata, SourceMetadataView,
    TranscriptProvenance, TranscriptProvenanceView,
};
use crate::source::{canonicalise_source, resolve_id, watch_url, CanonicalSourceView, SourceError, SourceProvider};
use crate::text::{
    chars_eq, chars_of, copy_chars, decimal, hex_digit, hex_digits, parse_u64, parse_u64_spec,
    push_decimal, seqs_of, split_at_most, split_lines, split_n, string_of, text_lines,
};

verus! {

broadcast use vstd::string::group_string_axioms;

#[derive(Clone, Debug, PartialEq, Eq)]
pub enum FixtureError {
    InvalidLine { line: usize },
    UnknownField { line: usize, field: String },
    DuplicateField { line: usize, field: String },
    MissingField(&'static str),
    UnsupportedSchema(String),
    InvalidNumber { line: usize, field: &'static str },
    InvalidCaptionProvenance(String),
    InvalidSource(SourceError),
    InvalidCue { line: usize, reason: &'static str },
    NoEvidence,
}

pub enum FixtureErrorView {
    InvalidLine { line: usize },
    UnknownField { line: usize, field: Seq<char> },
    DuplicateField { line: usize, field: Seq<char> },
    MissingField(&'static str),
    UnsupportedSchema(Seq<char>),
    InvalidNumber { line: usize, field: &'static str },
    InvalidCaptionProvenance(Seq<char>),
    InvalidSource(SourceError),
    InvalidCue { line: usize, reason: &'static str },
    NoEvidence,
}

impl View for FixtureError {
    type V = FixtureErrorView;

    open spec fn view(&self) -> FixtureErrorView {
        match self {
            FixtureError::InvalidLine { line } => FixtureErrorView::InvalidLine { line: *line },
            FixtureError::UnknownField { line, field } => FixtureErrorView::UnknownField {
                line: *line,
                field: field@,
            },
            FixtureError::DuplicateField { line, field } => FixtureErrorView::DuplicateField {
                line: *line,
                field: field@,
            },
            FixtureError::MissingField(f) => FixtureErrorView::MissingField(*f),
            FixtureError::UnsupportedSchema(v) => FixtureErrorView::UnsupportedSchema(v@),
            FixtureError::InvalidNumber { line, field } => FixtureErrorView::InvalidNumber {
                line: *line,
                field: *field,
            },
            FixtureError::InvalidCaptionProvenance(v) => FixtureErrorView::InvalidCaptionProvenance(
                v@,
            ),
            FixtureError::InvalidSource(e) => FixtureErrorView::InvalidSource(*e),
            FixtureError::InvalidCue { line, reason } => FixtureErrorView::InvalidCue {
                line: *line,
                reason: *reason,
            },
            FixtureError::NoEvidence => FixtureErrorView::NoEvidence,
        }
    }
}

/// A cue line as read, before validation.
pub struct RawCueView {
    pub line: usize,
    pub start_ms: u64,
    pub end_ms: u64,
    pub text: Seq<char>,
}

/// The fields of a fixture as read, before validation.
pub struct RawFixtureView {
    pub schema_version: Option<Seq<char>>,
    pub source_url: Option<Seq<char>>,
    pub title: Option<Seq<char>>,
    pub creator: Option<Seq<char>>,
    pub duration_ms: Option<u64>,
    pub language: Option<Seq<char>>,
    pub caption_provenance: Option<Seq<char>>,
    pub cues: Seq<RawCueView>,
}

pub open spec fn empty_raw() -> RawFixtureView {
    RawFixtureView {
        schema_version: None,
        source_url: None,
        title: None,
        creator: None,
        duration_ms: None,
        language: None,
        caption_provenance: None,
        cues: Seq::empty(),
    }
}

/// The `k`th tab-separated field of a line, if present.
pub open spec fn field(fields: Seq<Seq<char>>, k: int) -> Option<Seq<char>> {
    if k < fields.len() {
        Some(fields[k])
    } else {
        None
    }
}

/// Reads a text field that may be given once and must not be empty.
pub open spec fn text_field(
    target: Option<Seq<char>>,
    value: Option<Seq<char>>,
    line: usize,
    key: Seq<char>,
) -> Result<Seq<char>, FixtureErrorView> {
    if target is Some {
        Err(FixtureErrorView::DuplicateField { line, field: key })
    } else {
        match value {
            None => Err(FixtureErrorView::InvalidLine { line }),
            Some(v) => if v.len() == 0 {
                Err(FixtureErrorView::InvalidLine { line })
            } else {
                Ok(v)
            },
        }
    }
}

/// Reads a timestamp field, reporting `name` when it is not a number.
pub open spec fn number_field(value: Option<Seq<char>>, line: usize, name: &'static str) -> Result<
    u64,
    FixtureErrorView,
> {
    match value {
        None => Err(FixtureErrorView::InvalidLine { line }),
        Some(v) => match parse_u64_spec(v) {
            Some(n) => Ok(n),
            None => Err(FixtureErrorView::InvalidNumber { line, field: name }),
        },
    }
}

/// The fixture after reading one more line.
pub open spec fn apply_line(raw: RawFixtureView, line: Seq<char>, number: usize) -> Result<
    RawFixtureView,
    FixtureErrorView,
> {
    if line.len() == 0 || line[0] == '#' {
        Ok(raw)
    } else {
        let fields = split_n(line, '\t', 4);
        let key = fields[0];
        let value = field(fields, 1);
        if key == "schema_version"@ {
            match text_field(raw.schema_version, value, number, key) {
                Ok(v) => Ok(RawFixtureView { schema_version: Some(v), ..raw }),
                Err(e) => Err(e),
            }
        } else if key == "source_url"@ {
            match text_field(raw.source_url, value, number, key) {
                Ok(v) => Ok(RawFixtureView { source_url: Some(v), ..raw }),
                Err(e) => Err(e),
            }
        } else if key == "title"@ {
            match text_field(raw.title, value, number, key) {
                Ok(v) => Ok(RawFixtureView { title: Some(v), ..raw }),
                Err(e) => Err(e),
            }
        } else if key == "creator"@ {
            match text_field(raw.creator, value, number, key) {
                Ok(v) => Ok(RawFixtureView { creator: Some(v), ..raw }),
                Err(e) => Err(e),
            }
        } else if key == "duration_ms"@ {
            if raw.duration_ms is Some {
                Err(FixtureErrorView::DuplicateField { line: number, field: "duration"@ })
            } else {
                match number_field(value, number, "duration") {
                    Ok(n) => Ok(RawFixtureView { duration_ms: Some(n), ..raw }),
                    Err(e) => Err(e),
                }
            }
        } else if key == "language"@ {
            match text_field(raw.language, value, number, key) {
                Ok(v) => Ok(RawFixtureView { language: Some(v), ..raw }),
                Err(e) => Err(e),
            }
        } else if key == "caption_provenance"@ {
            match text_field(raw.caption_provenance, value, number, key) {
                Ok(v) => Ok(RawFixtureView { caption_provenance: Some(v), ..raw }),
                Err(e) => Err(e),
            }
        } else if key == "cue"@ {
            match number_field(value, number, "cue start timestamp") {
                Err(e) => Err(e),
                Ok(start) => match number_field(field(fields, 2), number, "cue end timestamp") {
                    Err(e) => Err(e),
                    Ok(end) => match field(fields, 3) {
                        Some(text) => if text.len() > 0 {
                            Ok(
                                RawFixtureView {
                                    cues: raw.cues.push(
                                        RawCueView { line: number, start_ms: start, end_ms: end, text },
                                    ),
                                    ..raw
                                },
                            )
                        } else {
                            Err(FixtureErrorView::InvalidCue { line: number, reason: "has no text" })
                        },
                        None => Err(
                            FixtureErrorView::InvalidCue { line: number, reason: "has no text" },
                        ),
                    },
                },
            }
        } else {
            Err(FixtureErrorView::UnknownField { line: number, field: key })
        }
    }
}

/// The fixture read from its lines, or the first line that fails.
pub open spec fn read_lines(lines: Seq<Seq<char>>) -> Result<RawFixtureView, FixtureErrorView>
    decreases lines.len(),
{
    if lines.len() == 0 {
        Ok(empty_raw())
    } else {
        match read_lines(lines.drop_last()) {
            Err(e) => Err(e),
            Ok(raw) => apply_line(raw, lines.last(), lines.len() as usize),
        }
    }
}


struct RawCue {
    line: usize,
    start_ms: u64,
    end_ms: u64,
    text: Vec<char>,
}

struct RawFixture {
    schema_version: Option<Vec<char>>,
    source_url: Option<Vec<char>>,
    title: Option<Vec<char>>,
    creator: Option<Vec<char>>,
    duration_ms: Option<u64>,
    language: Option<Vec<char>>,
    caption_provenance: Option<Vec<char>>,
    cues: Vec<RawCue>,
}

spec fn opt_view(o: Option<Vec<char>>) -> Option<Seq<char>> {
    match o {
        Some(v) => Some(v@),
        None => None,
    }
}

spec fn raw_cue_view(c: RawCue) -> RawCueView {
    RawCueView { line: c.line, start_ms: c.start_ms, end_ms: c.end_ms, text: c.text@ }
}

spec fn raw_view(r: RawFixture) -> RawFixtureView {
    RawFixtureView {
        schema_version: opt_view(r.schema_version),
        source_url: opt_view(r.source_url),
        title: opt_view(r.title),
        creator: opt_view(r.creator),
        duration_ms: r.duration_ms,
        language: opt_view(r.language),
        caption_provenance: opt_view(r.caption_provenance),
        cues: r.cues@.map_values(|c: RawCue| raw_cue_view(c)),
    }
}

fn is_key(key: &Vec<char>, lit: &str) -> (r: bool)
    ensures
        r == (key@ == lit@),
{
    chars_eq(key, &chars_of(lit))
}

fn read_text_field(
    target: &Option<Vec<char>>,
    fields: &Vec<Vec<char>>,
    line: usize,
    key: &Vec<char>,
) -> (r: Result<Vec<char>, FixtureError>)
    ensures
        match text_field(opt_view(*target), field(seqs_of(fields@), 1), line, key@) {
            Ok(v) => r matches Ok(x) && x@ == v,
            Err(e) => r matches Err(x) && x@ == e,
        },
{
    if target.is_some() {
        return Err(FixtureError::DuplicateField { line, field: string_of(key) });
    }
    if fields.len() < 2 {
        return Err(FixtureError::InvalidLine { line });
    }
    assert(seqs_of(fields@)[1] == fields@[1]@);
    let value = &fields[1];
    if value.len() == 0 {
        return Err(FixtureError::InvalidLine { line });
    }
    Ok(copy_chars(value))
}

fn read_number_field(fields: &Vec<Vec<char>>, k: usize, line: usize, name: &'static str) -> (r:
    Result<u64, FixtureError>)
    ensures
        match number_field(field(seqs_of(fields@), k as int), line, name) {
            Ok(v) => r == Ok::<u64, FixtureError>(v),
            Err(e) => r matches Err(x) && x@ == e,
        },
{
    if fields.len() <= k {
        return Err(FixtureError::InvalidLine { line });
    }
    assert(seqs_of(fields@)[k as int] == fields@[k as int]@);
    match parse_u64(&fields[k]) {
        Some(n) => Ok(n),
        None => Err(FixtureError::InvalidNumber { line, field: name }),
    }
}

fn read_line(raw: &mut RawFixture, line: &Vec<char>, number: usize) -> (r: Result<(), FixtureError>)
    ensures
        match apply_line(raw_view(*old(raw)), line@, number) {
            Ok(v) => r is Ok && raw_view(*final(raw)) == v,
            Err(e) => r matches Err(x) && x@ == e,
        },
{
    if line.len() == 0 || line[0] == '#' {
        return Ok(());
    }
    let fields = split_at_most(line, '\t', 4);
    let ghost fs = seqs_of(fields@);
    assert(fs.len() >= 1) by {
        crate::text::lemma_split_n_nonempty(line@, '\t', 4);
    }
    assert(fs[0] == fields@[0]@);
    let key = &fields[0];
    if is_key(key, "schema_version") {
        let v = read_text_field(&raw.schema_version, &fields, number, key)?;
        raw.schema_version = Some(v);
    } else if is_key(key, "source_url") {
        let v = read_text_field(&raw.source_url, &fields, number, key)?;
        raw.source_url = Some(v);
    } else if is_key(key, "title") {
        let v = read_text_field(&raw.title, &fields, number, key)?;
        raw.title = Some(v);
    } else if is_key(key, "creator") {
        let v = read_text_field(&raw.creator, &fields, number, key)?;
        raw.creator = Some(v);
    } else if is_key(key, "duration_ms") {
        if raw.duration_ms.is_some() {
            return Err(
                FixtureError::DuplicateField { line: number, field: string_of(&chars_of("duration")) },
            );
        }
        let n = read_number_field(&fields, 1, number, "duration")?;
        raw.duration_ms = Some(n);
    } else if is_key(key, "language") {
        let v = read_text_field(&raw.language, &fields, number, key)?;
        raw.language = Some(v);
    } else if is_key(key, "caption_provenance") {
        let v = read_text_field(&raw.caption_provenance, &fields, number, key)?;
        raw.caption_provenance = Some(v);
    } else if is_key(key, "cue") {
        let start = read_number_field(&fields, 1, number, "cue start timestamp")?;
        let end = read_number_field(&fields, 2, number, "cue end timestamp")?;
        if fields.len() < 4 {
            return Err(FixtureError::InvalidCue { line: number, reason: "has no text" });
        }
        assert(fs[3] == fields@[3]@);
        if fields[3].len() == 0 {
            return Err(FixtureError::InvalidCue { line: number, reason: "has no text" });
        }
        let ghost before = raw.cues@;
        raw.cues.push(RawCue { line: number, start_ms: start, end_ms: end, text: copy_chars(&fields[3]) });
        assert(raw.cues@.map_values(|c: RawCue| raw_cue_view(c)) =~= before.map_values(
            |c: RawCue| raw_cue_view(c),
        ).push(raw_cue_view(raw.cues@.last())));
    } else {
        return Err(FixtureError::UnknownField { line: number, field: string_of(key) });
    }
    Ok(())
}

proof fn lemma_read_lines_error_persists(ls: Seq<Seq<char>>, i: int, j: int)
    requires
        0 <= i <= j <= ls.len(),
        read_lines(ls.take(i)) is Err,
    ensures
        read_lines(ls.take(j)) == read_lines(ls.take(i)),
    decreases j - i,
{
    if j > i {
        lemma_read_lines_error_persists(ls, i, j - 1);
        assert(ls.take(j).drop_last() =~= ls.take(j - 1));
    }
}

fn read_fixture(input: &str) -> (r: Result<RawFixture, FixtureError>)
    ensures
        match read_lines(text_lines(input@)) {
            Ok(v) => r matches Ok(x) && raw_view(x) == v,
            Err(e) => r matches Err(x) && x@ == e,
        },
{
    let lines = split_lines(&chars_of(input));
    let ghost ls = seqs_of(lines@);
    let mut raw = RawFixture {
        schema_version: None,
        source_url: None,
        title: None,
        creator: None,
        duration_ms: None,
        language: None,
        caption_provenance: None,
        cues: Vec::new(),
    };
    assert(raw_view(raw).cues =~= Seq::<RawCueView>::empty());
    let mut i: usize = 0;
    while i < lines.len()
        invariant
            i <= lines.len(),
            ls == seqs_of(lines@),
            ls == text_lines(input@),
            read_lines(ls.take(i as int)) == Ok::<RawFixtureView, FixtureErrorView>(raw_view(raw)),
        decreases lines.len() - i,
    {
        assert(ls.take(i + 1).drop_last() =~= ls.take(i as int));
        assert(ls[i as int] == lines@[i as int]@);
        let step = read_line(&mut raw, &lines[i], i + 1);
        if let Err(e) = step {
            proof {
                lemma_read_lines_error_persists(ls, i + 1, ls.len() as int);
                assert(ls.take(ls.len() as int) =~= ls);
            }
            return Err(e);
        }
        i = i + 1;
    }
    assert(ls.take(lines.len() as int) =~= ls);
    Ok(raw)
}


/// Why a cue is invalid: it must end after it starts, end within the
/// source, and not start before the cue above it.
pub open spec fn raw_cue_problem(cues: Seq<RawCueView>, i: int, duration_ms: u64) -> Option<
    &'static str,
> {
    let c = cues[i];
    if c.start_ms >= c.end_ms {
        Some("must end after it starts")
    } else if c.end_ms > duration_ms {
        Some("ends after the source duration")
    } else if i > 0 && c.start_ms < cues[i - 1].start_ms {
        Some("is out of source order")
    } else {
        None
    }
}

/// The line and reason of the first invalid cue at or after `i`.
pub open spec fn first_raw_problem(cues: Seq<RawCueView>, i: int, duration_ms: u64) -> Option<
    (usize, &'static str),
>
    decreases cues.len() - i,
{
    if i < 0 || i >= cues.len() {
        None
    } else if raw_cue_problem(cues, i, duration_ms) is Some {
        Some((cues[i].line, raw_cue_problem(cues, i, duration_ms)->0))
    } else {
        first_raw_problem(cues, i + 1, duration_ms)
    }
}

pub open spec fn caption_kind(v: Seq<char>) -> Option<CaptionProvenance> {
    if v == "manual"@ {
        Some(CaptionProvenance::Manual)
    } else if v == "generated"@ {
        Some(CaptionProvenance::Generated)
    } else if v == "local_transcription"@ {
        Some(CaptionProvenance::LocalTranscription)
    } else {
        None
    }
}

/// The eight little-endian bytes of `x`.
pub open spec fn le_bytes(x: u64) -> Seq<u8> {
    seq![
        x as u8,
        (x >> 8u64) as u8,
        (x >> 16u64) as u8,
        (x >> 24u64) as u8,
        (x >> 32u64) as u8,
        (x >> 40u64) as u8,
        (x >> 48u64) as u8,
        (x >> 56u64) as u8,
    ]
}

pub open spec fn cue_stream(cues: Seq<RawCueView>) -> Seq<u8>
    decreases cues.len(),
{
    if cues.len() == 0 {
        Seq::empty()
    } else {
        cue_stream(cues.drop_last()) + le_bytes(cues.last().start_ms) + le_bytes(cues.last().end_ms)
            + encode_utf8(cues.last().text)
    }
}

pub open spec fn fnv_offset() -> u64 {
    0xcbf2_9ce4_8422_2325
}

pub open spec fn fnv_prime() -> u64 {
    0x0000_0100_0000_01b3
}

/// FNV-1a over a byte sequence.
pub open spec fn fnv1a(bytes: Seq<u8>) -> u64
    decreases bytes.len(),
{
    if bytes.len() == 0 {
        fnv_offset()
    } else {
        (fnv1a(bytes.drop_last()) ^ (bytes.last() as u64)).wrapping_mul(fnv_prime())
    }
}

/// Sixteen lowercase hex digits of `h` (`{h:016x}`).
pub open spec fn hex16(h: u64) -> Seq<char> {
    Seq::new(16, |k: int| hex_digits()[((h >> ((60 - 4 * k) as u64)) & 15u64) as int])
}

/// The deterministic version of a fixture's evidence.
pub open spec fn fixture_version(source_id: Seq<char>, cues: Seq<RawCueView>) -> Seq<char> {
    "fixture-fnv1a64:"@ + hex16(fnv1a(encode_utf8(source_id) + cue_stream(cues)))
}

/// The stream a fixture version hashes, read from compiled evidence.
pub open spec fn evidence_stream(evidence: Seq<EvidenceView>) -> Seq<u8>
    decreases evidence.len(),
{
    if evidence.len() == 0 {
        Seq::empty()
    } else {
        evidence_stream(evidence.drop_last()) + le_bytes(evidence.last().start_ms) + le_bytes(
            evidence.last().end_ms,
        ) + encode_utf8(evidence.last().text)
    }
}

/// The fixture version that compiled evidence carries when it came from a
/// fixture: the same hash, over the same spans.
pub open spec fn evidence_fixture_version(source_id: Seq<char>, evidence: Seq<EvidenceView>) -> Seq<
    char,
> {
    "fixture-fnv1a64:"@ + hex16(fnv1a(encode_utf8(source_id) + evidence_stream(evidence)))
}

proof fn lemma_streams_agree(cues: Seq<RawCueView>, evidence: Seq<EvidenceView>)
    requires
        cues.len() == evidence.len(),
        forall|i: int|
            0 <= i < cues.len() ==> (#[trigger] evidence[i]).start_ms == cues[i].start_ms
                && evidence[i].end_ms == cues[i].end_ms && evidence[i].text == cues[i].text,
    ensures
        evidence_stream(evidence) == cue_stream(cues),
    decreases cues.len(),
{
    if cues.len() > 0 {
        let (c, e) = (cues.drop_last(), evidence.drop_last());
        assert forall|i: int| 0 <= i < c.len() implies (#[trigger] e[i]).start_ms == c[i].start_ms
            && e[i].end_ms == c[i].end_ms && e[i].text == c[i].text by {
            assert(e[i] == evidence[i]);
            assert(c[i] == cues[i]);
        }
        lemma_streams_agree(c, e);
        assert(evidence.last() == evidence[evidence.len() - 1]);
    }
}

/// A compiled fixture's version is the fixture version of its own
/// evidence, so it can be recomputed from what is stored.
pub proof fn law_fixture_version_is_recomputable(
    id: Seq<char>,
    title: Seq<char>,
    creator: Seq<char>,
    duration_ms: u64,
    language: Seq<char>,
    captions: CaptionProvenance,
    cues: Seq<RawCueView>,
)
    ensures
        ({
            let c = fixture_view(id, title, creator, duration_ms, language, captions, cues);
            c.source_version == evidence_fixture_version(c.source.source_id, c.evidence)
        }),
{
    let c = fixture_view(id, title, creator, duration_ms, language, captions, cues);
    lemma_streams_agree(cues, c.evidence);
}

/// The fixture version of compiled evidence.
pub fn fixture_version_of(source_id: &str, evidence: &Vec<Evidence>) -> (v: String)
    ensures
        v@ == evidence_fixture_version(source_id@, crate::evidence::evidence_views(evidence@)),
{
    let ghost ev = crate::evidence::evidence_views(evidence@);
    let mut bytes: Vec<u8> = Vec::new();
    push_bytes(&mut bytes, source_id.as_bytes());
    let ghost head = bytes@;
    let mut i: usize = 0;
    while i < evidence.len()
        invariant
            i <= evidence.len(),
            ev == crate::evidence::evidence_views(evidence@),
            ev.len() == evidence@.len(),
            bytes@ == head + evidence_stream(ev.take(i as int)),
        decreases evidence.len() - i,
    {
        let e = &evidence[i];
        assert(ev.take(i + 1).drop_last() =~= ev.take(i as int));
        assert(ev[i as int] == e@);
        push_le(&mut bytes, e.start_ms);
        push_le(&mut bytes, e.end_ms);
        push_bytes(&mut bytes, e.text.as_str().as_bytes());
        i = i + 1;
        assert(bytes@ =~= head + evidence_stream(ev.take(i as int)));
    }
    assert(ev.take(evidence.len() as int) =~= ev);
    version_text(&bytes)
}

/// The compiled form of a valid fixture.
pub open spec fn fixture_view(
    id: Seq<char>,
    title: Seq<char>,
    creator: Seq<char>,
    duration_ms: u64,
    language: Seq<char>,
    captions: CaptionProvenance,
    cues: Seq<RawCueView>,
) -> CompiledSourceView {
    let start = cues[0].start_ms;
    let end = cues.last().end_ms;
    CompiledSourceView {
        source: CanonicalSourceView {
            provider: SourceProvider::YouTube,
            source_id: id,
            canonical_url: watch_url(id),
        },
        source_version: fixture_version(id, cues),
        metadata: SourceMetadataView { title, creator, duration_ms },
        evidence: Seq::new(
            cues.len(),
            |i: int|
                EvidenceView {
                    id: evidence_id(id, i),
                    start_ms: cues[i].start_ms,
                    end_ms: cues[i].end_ms,
                    text: cues[i].text,
                    transcript: TranscriptProvenanceView { language, captions },
                },
        ),
        coverage: Coverage {
            metadata: true,
            transcript_start_ms: start,
            transcript_end_ms: end,
            transcript_complete: start == 0 && end == duration_ms,
            visuals_processed: false,
        },
        acquisition: AcquisitionProvenanceView {
            adapter: "fixture"@,
            source_format: "fixture_v1"@,
            tool: None,
        },
    }
}

/// What a fixture compiles to once its lines are read.
pub open spec fn build_outcome(raw: RawFixtureView) -> Result<CompiledSourceView, FixtureErrorView> {
    match raw.schema_version {
        None => Err(FixtureErrorView::MissingField("schema_version")),
        Some(sv) => if sv != "1"@ {
            Err(FixtureErrorView::UnsupportedSchema(sv))
        } else {
            match raw.source_url {
                None => Err(FixtureErrorView::MissingField("source_url")),
                Some(url) => match resolve_id(url) {
                    Err(e) => Err(FixtureErrorView::InvalidSource(e)),
                    Ok(id) => match raw.title {
                        None => Err(FixtureErrorView::MissingField("title")),
                        Some(title) => match raw.creator {
                            None => Err(FixtureErrorView::MissingField("creator")),
                            Some(creator) => match raw.duration_ms {
                                None => Err(FixtureErrorView::MissingField("duration_ms")),
                                Some(d) => if d == 0 {
                                    Err(FixtureErrorView::InvalidNumber { line: 0, field: "duration" })
                                } else {
                                    match raw.language {
                                        None => Err(FixtureErrorView::MissingField("language")),
                                        Some(language) => match raw.caption_provenance {
                                            None => Err(
                                                FixtureErrorView::MissingField("caption_provenance"),
                                            ),
                                            Some(cv) => match caption_kind(cv) {
                                                None => Err(
                                                    FixtureErrorView::InvalidCaptionProvenance(cv),
                                                ),
                                                Some(cap) => if raw.cues.len() == 0 {
                                                    Err(FixtureErrorView::NoEvidence)
                                                } else {
                                                    match first_raw_problem(raw.cues, 0, d) {
                                                        Some((line, reason)) => Err(
                                                            FixtureErrorView::InvalidCue { line, reason },
                                                        ),
                                                        None => Ok(
                                                            fixture_view(
                                                                id,
                                                                title,
                                                                creator,
                                                                d,
                                                                language,
                                                                cap,
                                                                raw.cues,
                                                            ),
                                                        ),
                                                    }
                                                },
                                            },
                                        },
                                    }
                                },
                            },
                        },
                    },
                },
            }
        },
    }
}

/// A compiled fixture reports its coverage from its cues: the transcript
/// runs from the first cue's start to the last cue's end, and is complete
/// exactly when it starts at 0 and ends at the source's duration.
pub proof fn law_fixture_coverage_follows_its_cues(input: Seq<char>)
    requires
        fixture_outcome(input) is Ok,
    ensures
        ({
            let c = fixture_outcome(input)->Ok_0;
            &&& c.evidence.len() > 0
            &&& c.coverage.metadata
            &&& !c.coverage.visuals_processed
            &&& c.coverage.transcript_start_ms == c.evidence[0].start_ms
            &&& c.coverage.transcript_end_ms == c.evidence.last().end_ms
            &&& (c.coverage.transcript_complete <==> c.coverage.transcript_start_ms == 0
                && c.coverage.transcript_end_ms == c.metadata.duration_ms)
        }),
{
}

/// What compiling a fixture text gives.
pub open spec fn fixture_outcome(input: Seq<char>) -> Result<CompiledSourceView, FixtureErrorView> {
    match read_lines(text_lines(input)) {
        Err(e) => Err(e),
        Ok(raw) => build_outcome(raw),
    }
}


fn push_le(out: &mut Vec<u8>, x: u64)
    ensures
        final(out)@ == old(out)@ + le_bytes(x),
{
    out.push(x as u8);
    out.push((x >> 8u64) as u8);
    out.push((x >> 16u64) as u8);
    out.push((x >> 24u64) as u8);
    out.push((x >> 32u64) as u8);
    out.push((x >> 40u64) as u8);
    out.push((x >> 48u64) as u8);
    out.push((x >> 56u64) as u8);
    assert(final(out)@ =~= old(out)@ + le_bytes(x));
}

fn push_bytes(out: &mut Vec<u8>, bytes: &[u8])
    ensures
        final(out)@ == old(out)@ + bytes@,
{
    let ghost start = out@;
    let mut i: usize = 0;
    while i < bytes.len()
        invariant
            i <= bytes.len(),
            out@ == start + bytes@.take(i as int),
        decreases bytes.len() - i,
    {
        out.push(bytes[i]);
        i = i + 1;
        assert(out@ =~= start + bytes@.take(i as int));
    }
    assert(bytes@.take(bytes.len() as int) =~= bytes@);
}

fn version_of(source_id: &str, cues: &Vec<RawCue>) -> (v: String)
    ensures
        v@ == fixture_version(source_id@, cues@.map_values(|c: RawCue| raw_cue_view(c))),
{
    let ghost cs = cues@.map_values(|c: RawCue| raw_cue_view(c));
    let mut bytes: Vec<u8> = Vec::new();
    push_bytes(&mut bytes, source_id.as_bytes());
    let ghost head = bytes@;
    let mut i: usize = 0;
    while i < cues.len()
        invariant
            i <= cues.len(),
            cs == cues@.map_values(|c: RawCue| raw_cue_view(c)),
            bytes@ == head + cue_stream(cs.take(i as int)),
        decreases cues.len() - i,
    {
        let c = &cues[i];
        assert(cs.take(i + 1).drop_last() =~= cs.take(i as int));
        assert(cs[i as int] == raw_cue_view(*c));
        push_le(&mut bytes, c.start_ms);
        push_le(&mut bytes, c.end_ms);
        let text = string_of(&c.text);
        push_bytes(&mut bytes, text.as_str().as_bytes());
        i = i + 1;
        assert(bytes@ =~= head + cue_stream(cs.take(i as int)));
    }
    assert(cs.take(cues.len() as int) =~= cs);
    version_text(&bytes)
}

/// The fixture version of a byte stream.
fn version_text(bytes: &Vec<u8>) -> (v: String)
    ensures
        v@ == "fixture-fnv1a64:"@ + hex16(fnv1a(bytes@)),
{
    let mut hash: u64 = 0xcbf2_9ce4_8422_2325;
    let mut j: usize = 0;
    while j < bytes.len()
        invariant
            j <= bytes.len(),
            hash == fnv1a(bytes@.take(j as int)),
        decreases bytes.len() - j,
    {
        assert(bytes@.take(j + 1).drop_last() =~= bytes@.take(j as int));
        hash = (hash ^ (bytes[j] as u64)).wrapping_mul(0x0000_0100_0000_01b3);
        j = j + 1;
    }
    assert(bytes@.take(bytes.len() as int) =~= bytes@);
    let mut out: Vec<char> = Vec::new();
    crate::text::push_str(&mut out, "fixture-fnv1a64:");
    let ghost prefix = out@;
    let mut k: u64 = 0;
    while k < 16
        invariant
            k <= 16,
            out@ == prefix + hex16(hash).take(k as int),
        decreases 16 - k,
    {
        let shift: u64 = 60 - 4 * k;
        let d = (hash >> shift) & 15u64;
        assert(d < 16) by (bit_vector)
            requires
                d == (hash >> shift) & 15u64,
        ;
        out.push(hex_digit(d));
        k = k + 1;
        assert(out@ =~= prefix + hex16(hash).take(k as int));
    }
    assert(hex16(hash).take(16) =~= hex16(hash));
    string_of(&out)
}

fn required(value: Option<Vec<char>>, name: &'static str) -> (r: Result<Vec<char>, FixtureError>)
    ensures
        match value {
            Some(v) => r matches Ok(x) && x@ == v@,
            None => r matches Err(e) && e@ == FixtureErrorView::MissingField(name),
        },
{
    match value {
        Some(v) => Ok(v),
        None => Err(FixtureError::MissingField(name)),
    }
}

#[verifier::loop_isolation(false)]
fn build(raw: RawFixture) -> (r: Result<CompiledSource, FixtureError>)
    ensures
        match build_outcome(raw_view(raw)) {
            Ok(v) => r matches Ok(c) && c@ == v,
            Err(e) => r matches Err(x) && x@ == e,
        },
{
    let ghost rv = raw_view(raw);
    let schema_version = required(raw.schema_version, "schema_version")?;
    if !is_key(&schema_version, "1") {
        return Err(FixtureError::UnsupportedSchema(string_of(&schema_version)));
    }
    let source_url = required(raw.source_url, "source_url")?;
    let url = string_of(&source_url);
    let source = match canonicalise_source(url.as_str()) {
        Ok(s) => s,
        Err(e) => {
            return Err(FixtureError::InvalidSource(e));
        },
    };
    let ghost id = source.source_id@;
    let title = required(raw.title, "title")?;
    let creator = required(raw.creator, "creator")?;
    let duration_ms = match raw.duration_ms {
        Some(d) => d,
        None => {
            return Err(FixtureError::MissingField("duration_ms"));
        },
    };
    if duration_ms == 0 {
        return Err(FixtureError::InvalidNumber { line: 0, field: "duration" });
    }
    let language = required(raw.language, "language")?;
    let caption_value = required(raw.caption_provenance, "caption_provenance")?;
    let captions = if is_key(&caption_value, "manual") {
        CaptionProvenance::Manual
    } else if is_key(&caption_value, "generated") {
        CaptionProvenance::Generated
    } else if is_key(&caption_value, "local_transcription") {
        CaptionProvenance::LocalTranscription
    } else {
        return Err(FixtureError::InvalidCaptionProvenance(string_of(&caption_value)));
    };
    let cues = raw.cues;
    let ghost cs = cues@.map_values(|c: RawCue| raw_cue_view(c));
    assert(cs == rv.cues);
    if cues.len() == 0 {
        return Err(FixtureError::NoEvidence);
    }
    let mut evidence: Vec<Evidence> = Vec::new();
    let mut i: usize = 0;
    while i < cues.len()
        invariant
            i <= cues.len(),
            cs == cues@.map_values(|c: RawCue| raw_cue_view(c)),
            id == source.source_id@,
            first_raw_problem(cs, 0, duration_ms) == first_raw_problem(cs, i as int, duration_ms),
            evidence@.len() == i,
            forall|k: int|
                0 <= k < i ==> (#[trigger] evidence@[k])@ == fixture_view(
                    id,
                    title@,
                    creator@,
                    duration_ms,
                    language@,
                    captions,
                    cs,
                ).evidence[k],
        decreases cues.len() - i,
    {
        let cue = &cues[i];
        assert(cs[i as int] == raw_cue_view(*cue));
        let reason = if cue.start_ms >= cue.end_ms {
            Some("must end after it starts")
        } else if cue.end_ms > duration_ms {
            Some("ends after the source duration")
        } else if i > 0 && cue.start_ms < cues[i - 1].start_ms {
            Some("is out of source order")
        } else {
            None
        };
        proof {
            if i > 0 {
                assert(cs[i - 1] == raw_cue_view(cues@[i - 1]));
            }
        }
        assert(reason == raw_cue_problem(cs, i as int, duration_ms));
        if let Some(reason) = reason {
            assert(first_raw_problem(cs, i as int, duration_ms) == Some((cue.line, reason)));
            return Err(FixtureError::InvalidCue { line: cue.line, reason });
        }
        let mut id_chars = chars_of(source.source_id.as_str());
        id_chars.push(':');
        push_decimal(&mut id_chars, i as u64);
        assert(id_chars@ =~= evidence_id(id, i as int));
        let ghost before = evidence@;
        evidence.push(
            Evidence {
                id: string_of(&id_chars),
                start_ms: cue.start_ms,
                end_ms: cue.end_ms,
                text: string_of(&cue.text),
                transcript: TranscriptProvenance {
                    language: string_of(&language),
                    captions,
                },
            },
        );
        assert(evidence@[i as int]@ == fixture_view(
            id,
            title@,
            creator@,
            duration_ms,
            language@,
            captions,
            cs,
        ).evidence[i as int]);
        assert forall|k: int| 0 <= k < i implies evidence@[k] == before[k] by {}
        i = i + 1;
    }
    let start = cues[0].start_ms;
    let end = cues[cues.len() - 1].end_ms;
    assert(cs[0] == raw_cue_view(cues@[0]));
    assert(cs.last() == raw_cue_view(cues@[cues.len() - 1]));
    let source_version = version_of(source.source_id.as_str(), &cues);
    let compiled = CompiledSource {
        source,
        source_version,
        metadata: SourceMetadata {
            title: string_of(&title),
            creator: string_of(&creator),
            duration_ms,
        },
        evidence,
        coverage: Coverage {
            metadata: true,
            transcript_start_ms: start,
            transcript_end_ms: end,
            transcript_complete: start == 0 && end == duration_ms,
            visuals_processed: false,
        },
        acquisition: AcquisitionProvenance {
            adapter: string_of(&chars_of("fixture")),
            source_format: string_of(&chars_of("fixture_v1")),
            tool: None,
        },
    };
    assert(compiled@.evidence =~= fixture_view(
        id,
        title@,
        creator@,
        duration_ms,
        language@,
        captions,
        cs,
    ).evidence);
    Ok(compiled)
}

/// Compiles a deterministic tab-separated caption fixture into source
/// evidence.
///
/// Each non-empty line not starting with `#` is `<field>\t<value>`, or
/// `cue\t<start ms>\t<end ms>\t<text>`. The fields `schema_version` (which
/// must be `1`), `source_url`, `title`, `creator`, `duration_ms`, `language`
/// and `caption_provenance` must each appear exactly once; cues must end
/// after they start, within the duration, in source order.
pub fn compile_fixture(input: &str) -> (r: Result<CompiledSource, FixtureError>)
    ensures
        match fixture_outcome(input@) {
            Ok(v) => r matches Ok(c) && c@ == v,
            Err(e) => r matches Err(x) && x@ == e,
        },
{
    let raw = read_fixture(input)?;
    build(raw)
}


/// The reader-facing text of a fixture error.
pub open spec fn fixture_error_text(e: FixtureErrorView) -> Seq<char> {
    match e {
        FixtureErrorView::InvalidLine { line } => "fixture line "@ + decimal(line as nat)
            + " is malformed"@,
        FixtureErrorView::UnknownField { line, field } => "fixture line "@ + decimal(line as nat)
            + " has unknown field '"@ + field + "'"@,
        FixtureErrorView::DuplicateField { line, field } => "fixture line "@ + decimal(line as nat)
            + " repeats field '"@ + field + "'"@,
        FixtureErrorView::MissingField(field) => "fixture is missing '"@ + field@ + "'"@,
        FixtureErrorView::UnsupportedSchema(version) => "fixture schema version '"@ + version
            + "' is unsupported"@,
        FixtureErrorView::InvalidNumber { line, field } => "fixture line "@ + decimal(line as nat)
            + " has an invalid "@ + field@,
        FixtureErrorView::InvalidCaptionProvenance(value) => "caption provenance '"@ + value
            + "' is unsupported"@,
        FixtureErrorView::InvalidSource(error) => "fixture source is invalid: "@
            + crate::source::source_error_text(error),
        FixtureErrorView::InvalidCue { line, reason } => "fixture cue on line "@ + decimal(
            line as nat,
        ) + " "@ + reason@,
        FixtureErrorView::NoEvidence => "fixture contains no caption evidence"@,
    }
}

impl FixtureError {
    /// What went wrong, for a reader.
    pub fn message(&self) -> (r: String)
        ensures
            r@ == fixture_error_text(self@),
    {
        let mut out: Vec<char> = Vec::new();
        match self {
            FixtureError::InvalidLine { line } => {
                crate::text::push_str(&mut out, "fixture line ");
                crate::text::push_decimal(&mut out, *line as u64);
                crate::text::push_str(&mut out, " is malformed");
            },
            FixtureError::UnknownField { line, field } => {
                crate::text::push_str(&mut out, "fixture line ");
                crate::text::push_decimal(&mut out, *line as u64);
                crate::text::push_str(&mut out, " has unknown field '");
                crate::text::push_str(&mut out, field.as_str());
                crate::text::push_str(&mut out, "'");
            },
            FixtureError::DuplicateField { line, field } => {
                crate::text::push_str(&mut out, "fixture line ");
                crate::text::push_decimal(&mut out, *line as u64);
                crate::text::push_str(&mut out, " repeats field '");
                crate::text::push_str(&mut out, field.as_str());
                crate::text::push_str(&mut out, "'");
            },
            FixtureError::MissingField(field) => {
                crate::text::push_str(&mut out, "fixture is missing '");
                crate::text::push_str(&mut out, field);
                crate::text::push_str(&mut out, "'");
            },
            FixtureError::UnsupportedSchema(version) => {
                crate::text::push_str(&mut out, "fixture schema version '");
                crate::text::push_str(&mut out, version.as_str());
                crate::text::push_str(&mut out, "' is unsupported");
            },
            FixtureError::InvalidNumber { line, field } => {
                crate::text::push_str(&mut out, "fixture line ");
                crate::text::push_decimal(&mut out, *line as u64);
                crate::text::push_str(&mut out, " has an invalid ");
                crate::text::push_str(&mut out, field);
            },
            FixtureError::InvalidCaptionProvenance(value) => {
                crate::text::push_str(&mut out, "caption provenance '");
                crate::text::push_str(&mut out, value.as_str());
                crate::text::push_str(&mut out, "' is unsupported");
            },
            FixtureError::InvalidSource(error) => {
                crate::text::push_str(&mut out, "fixture source is invalid: ");
                let text = error.message();
                crate::text::push_str(&mut out, text.as_str());
            },
            FixtureError::InvalidCue { line, reason } => {
                crate::text::push_str(&mut out, "fixture cue on line ");
                crate::text::push_decimal(&mut out, *line as u64);
                crate::text::push_str(&mut out, " ");
                crate::text::push_str(&mut out, reason);
            },
            FixtureError::NoEvidence => {
                crate::text::push_str(&mut out, "fixture contains no caption evidence");
            },
        }
        assert(out@ =~= fixture_error_text(self@));
        string_of(&out)
    }
}

} // verus!
