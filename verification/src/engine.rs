//! Packaging compiled evidence for transports, and the decisions that
//! resolve a source through the cache and the provider.
use vstd::prelude::*;

use crate::evidence::{
    evidence_views, AcquisitionProvenance, CaptionProvenance, CompiledSource, CompiledSourceView,
    Coverage, EvidenceView, SourceMetadata,
};
use crate::search::{retrieved_as, search, search_result, Hit, SearchError, SearchQuery};
use crate::source::CanonicalSource;
use crate::text::{chars_of, decimal, push_decimal, push_str, push_two_digits, string_of, two_digits};

verus! {

broadcast use vstd::string::group_string_axioms;

/// Where a packet's evidence came from.
#[derive(Clone, Copy, Debug, PartialEq, Eq, Structural)]
pub enum CacheStatus {
    Disabled,
    Hit,
    Miss,
    Refreshed,
    Fixture,
}

#[derive(Clone, Copy, Debug, PartialEq, Eq, Structural)]
pub struct CacheReport {
    pub status: CacheStatus,
    pub source_changed: Option<bool>,
}

/// One retrieved moment, ready for a transport.
#[derive(Clone, Debug, PartialEq, Eq)]
pub struct EvidenceMoment {
    pub id: String,
    pub start_ms: u64,
    pub timestamp_label: String,
    pub end_ms: u64,
    pub timestamp_url: String,
    pub excerpt: String,
    pub evidence_kind: &'static str,
    pub language: String,
    pub caption_provenance: CaptionProvenance,
    pub score: u32,
    pub matched_terms: Vec<String>,
}

/// The answer to a search: the source's provenance and its moments.
#[derive(Clone, Debug, PartialEq, Eq)]
pub struct EvidencePacket {
    pub source: CanonicalSource,
    pub source_version: String,
    pub metadata: SourceMetadata,
    pub coverage: Coverage,
    pub acquisition: AcquisitionProvenance,
    pub cache: CacheReport,
    pub query: String,
    pub moments: Vec<EvidenceMoment>,
    pub warnings: Vec<&'static str>,
}

/// One passage of a whole-source read.
#[derive(Clone, Debug, PartialEq, Eq)]
pub struct TranscriptPassage {
    pub start_ms: u64,
    pub timestamp_label: String,
    pub end_ms: u64,
    pub timestamp_url: String,
    pub text: String,
}

/// A whole source, passage by passage, with its provenance.
#[derive(Clone, Debug, PartialEq, Eq)]
pub struct TranscriptPacket {
    pub source: CanonicalSource,
    pub source_version: String,
    pub metadata: SourceMetadata,
    pub coverage: Coverage,
    pub acquisition: AcquisitionProvenance,
    pub cache: CacheReport,
    pub language: String,
    pub caption_provenance: CaptionProvenance,
    pub passage_count: usize,
    pub passages: Vec<TranscriptPassage>,
    pub warnings: Vec<&'static str>,
}

/// A start time as `m:ss`, or `h:mm:ss` from the first hour on.
pub open spec fn timestamp_label_of(start_ms: u64) -> Seq<char> {
    let total_seconds = start_ms / 1000;
    let seconds = total_seconds % 60;
    let total_minutes = total_seconds / 60;
    let minutes = total_minutes % 60;
    let hours = total_minutes / 60;
    if hours == 0 {
        decimal(minutes as nat) + seq![':'] + two_digits(seconds as nat)
    } else {
        decimal(hours as nat) + seq![':'] + two_digits(minutes as nat) + seq![':'] + two_digits(
            seconds as nat,
        )
    }
}

/// A link to the source at the whole second where a span starts.
pub open spec fn timestamp_url_of(canonical_url: Seq<char>, start_ms: u64) -> Seq<char> {
    canonical_url + "&t="@ + decimal((start_ms / 1000) as nat) + "s"@
}

/// The warnings a packet carries: an incomplete transcript, unprocessed
/// visuals, and wording that was not written by hand.
pub open spec fn source_warnings(c: CompiledSourceView) -> Seq<Seq<char>> {
    let incomplete: Seq<Seq<char>> = if !c.coverage.transcript_complete {
        seq!["transcript_incomplete"@]
    } else {
        Seq::empty()
    };
    let visuals: Seq<Seq<char>> = if !c.coverage.visuals_processed {
        seq!["visuals_not_processed"@]
    } else {
        Seq::empty()
    };
    let machine: Seq<Seq<char>> = if c.evidence.len() > 0 && c.evidence[0].transcript.captions
        != CaptionProvenance::Manual {
        seq!["captions_machine_generated"@]
    } else {
        Seq::empty()
    };
    incomplete + visuals + machine
}

pub open spec fn str_views(v: Seq<&'static str>) -> Seq<Seq<char>> {
    v.map_values(|s: &'static str| s@)
}

/// Formats a start time as `m:ss`, or `h:mm:ss` from the first hour on.
pub fn timestamp_label(start_ms: u64) -> (r: String)
    ensures
        r@ == timestamp_label_of(start_ms),
{
    let total_seconds = start_ms / 1000;
    let seconds = total_seconds % 60;
    let total_minutes = total_seconds / 60;
    let minutes = total_minutes % 60;
    let hours = total_minutes / 60;
    let mut out: Vec<char> = Vec::new();
    if hours == 0 {
        push_decimal(&mut out, minutes);
        out.push(':');
        push_two_digits(&mut out, seconds);
    } else {
        push_decimal(&mut out, hours);
        out.push(':');
        push_two_digits(&mut out, minutes);
        out.push(':');
        push_two_digits(&mut out, seconds);
    }
    assert(out@ =~= timestamp_label_of(start_ms));
    string_of(&out)
}

/// A link to the source at the whole second where a span starts.
pub fn timestamp_url(canonical_url: &str, start_ms: u64) -> (r: String)
    ensures
        r@ == timestamp_url_of(canonical_url@, start_ms),
{
    let mut out = chars_of(canonical_url);
    push_str(&mut out, "&t=");
    push_decimal(&mut out, start_ms / 1000);
    push_str(&mut out, "s");
    assert(out@ =~= timestamp_url_of(canonical_url@, start_ms));
    string_of(&out)
}

fn source_warnings_of(compiled: &CompiledSource) -> (r: Vec<&'static str>)
    ensures
        str_views(r@) == source_warnings(compiled@),
{
    let mut warnings: Vec<&'static str> = Vec::new();
    if !compiled.coverage.transcript_complete {
        warnings.push("transcript_incomplete");
    }
    if !compiled.coverage.visuals_processed {
        warnings.push("visuals_not_processed");
    }
    if compiled.evidence.len() > 0 && compiled.evidence[0].transcript.captions
        != CaptionProvenance::Manual {
        warnings.push("captions_machine_generated");
    }
    assert(compiled@.evidence.len() == compiled.evidence@.len());
    proof {
        if compiled.evidence@.len() > 0 {
            assert(compiled@.evidence[0] == compiled.evidence@[0]@);
        }
    }
    assert(str_views(warnings@) =~= source_warnings(compiled@));
    warnings
}

/// What a whole-source passage holds for one evidence span.
pub open spec fn passage_matches(p: TranscriptPassage, e: EvidenceView, canonical_url: Seq<char>) -> bool {
    &&& p.start_ms == e.start_ms
    &&& p.end_ms == e.end_ms
    &&& p.text@ == e.text
    &&& p.timestamp_label@ == timestamp_label_of(e.start_ms)
    &&& p.timestamp_url@ == timestamp_url_of(canonical_url, e.start_ms)
}

/// Whether `p` reads `compiled` whole: the source's provenance, the cache
/// report, every evidence span as a passage in order, the transcript's
/// language and caption provenance (generated when there is no evidence),
/// and the source's warnings.
pub open spec fn transcript_answers(compiled: CompiledSource, cache: CacheReport, p: TranscriptPacket) -> bool {
    &&& p.source@ == compiled.source@
    &&& p.source_version@ == compiled.source_version@
    &&& p.metadata@ == compiled.metadata@
    &&& p.coverage == compiled.coverage
    &&& p.acquisition@ == compiled.acquisition@
    &&& p.cache == cache
    &&& p.passage_count == compiled.evidence@.len()
    &&& p.passages@.len() == compiled.evidence@.len()
    &&& forall|i: int|
        0 <= i < compiled.evidence@.len() ==> passage_matches(
            #[trigger] p.passages@[i],
            compiled.evidence@[i]@,
            compiled.source.canonical_url@,
        )
    &&& compiled.evidence@.len() > 0 ==> p.language@ == compiled.evidence@[0].transcript.language@
        && p.caption_provenance == compiled.evidence@[0].transcript.captions
    &&& compiled.evidence@.len() == 0 ==> p.language@ == Seq::<char>::empty()
        && p.caption_provenance == CaptionProvenance::Generated
    &&& str_views(p.warnings@) == source_warnings(compiled@)
}

/// Packages a whole compiled source so a reader can quote any part of it.
///
/// Every evidence span becomes one passage, in order, keeping its own
/// timestamp label and link; the packet carries the source's provenance,
/// the transcript's language and caption provenance (generated when the
/// source holds no evidence), and the source's warnings.
pub fn transcript_packet(compiled: &CompiledSource, cache: CacheReport) -> (p: TranscriptPacket)
    ensures
        transcript_answers(*compiled, cache, p),
{
    let mut passages: Vec<TranscriptPassage> = Vec::new();
    let mut i: usize = 0;
    while i < compiled.evidence.len()
        invariant
            i <= compiled.evidence.len(),
            passages@.len() == i,
            forall|k: int|
                0 <= k < i ==> passage_matches(
                    #[trigger] passages@[k],
                    compiled.evidence@[k]@,
                    compiled.source.canonical_url@,
                ),
        decreases compiled.evidence.len() - i,
    {
        let e = &compiled.evidence[i];
        passages.push(
            TranscriptPassage {
                start_ms: e.start_ms,
                timestamp_label: timestamp_label(e.start_ms),
                end_ms: e.end_ms,
                timestamp_url: timestamp_url(compiled.source.canonical_url.as_str(), e.start_ms),
                text: e.text.clone(),
            },
        );
        i = i + 1;
    }
    let (language, caption_provenance) = if compiled.evidence.len() > 0 {
        (compiled.evidence[0].transcript.language.clone(), compiled.evidence[0].transcript.captions)
    } else {
        (String::new(), CaptionProvenance::Generated)
    };
    let warnings = source_warnings_of(compiled);
    TranscriptPacket {
        source: compiled.source.duplicate(),
        source_version: compiled.source_version.clone(),
        metadata: compiled.metadata.duplicate(),
        coverage: compiled.coverage,
        acquisition: compiled.acquisition.duplicate(),
        cache,
        language,
        caption_provenance,
        passage_count: passages.len(),
        passages,
        warnings,
    }
}


/// What a retrieved moment holds for one ranked hit.
pub open spec fn moment_matches(m: EvidenceMoment, e: EvidenceView, h: Hit, canonical_url: Seq<char>) -> bool {
    &&& m.id@ == e.id
    &&& m.start_ms == e.start_ms
    &&& m.timestamp_label@ == timestamp_label_of(e.start_ms)
    &&& m.end_ms == e.end_ms
    &&& m.timestamp_url@ == timestamp_url_of(canonical_url, e.start_ms)
    &&& m.excerpt@ == e.text
    &&& m.evidence_kind@ == "transcript"@
    &&& m.language@ == e.transcript.language
    &&& m.caption_provenance == e.transcript.captions
    &&& m.score as int == h.score
    &&& m.matched_terms@.map_values(|t: String| t@) == h.matched
}

/// A moment is the hit's evidence span, formatted.
pub open spec fn moment_for(m: EvidenceMoment, evidence: Seq<crate::evidence::Evidence>, h: Hit, canonical_url: Seq<char>) -> bool {
    0 <= h.index < evidence.len() && moment_matches(m, evidence[h.index]@, h, canonical_url)
}

/// Whether `p` answers `query` on `compiled` with the ranked `hits`: the
/// source's provenance, the cache report, the query, one moment per hit in
/// order, and the source's warnings.
pub open spec fn packet_answers(
    compiled: CompiledSource,
    query: SearchQuery,
    cache: CacheReport,
    hits: Seq<Hit>,
    p: EvidencePacket,
) -> bool {
    &&& p.source@ == compiled.source@
    &&& p.source_version@ == compiled.source_version@
    &&& p.metadata@ == compiled.metadata@
    &&& p.coverage == compiled.coverage
    &&& p.acquisition@ == compiled.acquisition@
    &&& p.cache == cache
    &&& p.query@ == query.text@
    &&& p.moments@.len() == hits.len()
    &&& forall|k: int|
        0 <= k < hits.len() ==> moment_for(
            #[trigger] p.moments@[k],
            compiled.evidence@,
            hits[k],
            compiled.source.canonical_url@,
        )
    &&& str_views(p.warnings@) == source_warnings(compiled@)
}

/// Packages already compiled evidence for a transport without changing
/// retrieval behaviour: the moments are exactly the search results, in
/// order.
pub fn evidence_packet(compiled: &CompiledSource, query: &SearchQuery, cache: CacheReport) -> (r:
    Result<EvidencePacket, SearchError>)
    requires
        crate::search::searchable_terms(query.text@).len() <= crate::search::MAX_QUERY_TERMS,
    ensures
        match search_result(
            evidence_views(compiled.evidence@),
            query.text@,
            query.limit,
            query.start_ms,
            query.end_ms,
        ) {
            Err(e) => r == Err::<EvidencePacket, SearchError>(e),
            Ok(hits) => r matches Ok(p) && packet_answers(*compiled, *query, cache, hits, p),
        },
{
    let results = search(compiled, query)?;
    let ghost hits = match search_result(
        evidence_views(compiled.evidence@),
        query.text@,
        query.limit,
        query.start_ms,
        query.end_ms,
    ) {
        Ok(h) => h,
        Err(_) => Seq::empty(),
    };
    let mut moments: Vec<EvidenceMoment> = Vec::new();
    let mut k: usize = 0;
    while k < results.len()
        invariant
            k <= results.len(),
            results@.len() == hits.len(),
            forall|j: int|
                0 <= j < hits.len() ==> retrieved_as(
                    #[trigger] results@[j],
                    compiled.evidence@,
                    hits[j],
                ),
            moments@.len() == k,
            forall|j: int|
                0 <= j < k ==> moment_for(
                    #[trigger] moments@[j],
                    compiled.evidence@,
                    hits[j],
                    compiled.source.canonical_url@,
                ),
        decreases results.len() - k,
    {
        let result = &results[k];
        assert(retrieved_as(results@[k as int], compiled.evidence@, hits[k as int]));
        let e = result.evidence;
        let mut names: Vec<String> = Vec::new();
        let mut t: usize = 0;
        while t < result.matched_terms.len()
            invariant
                t <= result.matched_terms@.len(),
                names@.map_values(|n: String| n@) == result.matched_terms@.map_values(
                    |n: String| n@,
                ).take(t as int),
            decreases result.matched_terms.len() - t,
        {
            let ghost before = names@;
            let name = result.matched_terms[t].clone();
            names.push(name);
            assert(names@.map_values(|n: String| n@) =~= before.map_values(|n: String| n@).push(
                name@,
            ));
            assert(result.matched_terms@.map_values(|n: String| n@).take(t + 1) =~= result.matched_terms@.map_values(
                |n: String| n@,
            ).take(t as int).push(result.matched_terms@[t as int]@));
            assert(names@.map_values(|n: String| n@) =~= result.matched_terms@.map_values(
                |n: String| n@,
            ).take(t + 1));
            t = t + 1;
        }
        assert(result.matched_terms@.map_values(|n: String| n@).take(
            result.matched_terms.len() as int,
        ) =~= result.matched_terms@.map_values(|n: String| n@));
        let ghost before = moments@;
        let ghost h = hits[k as int];
        assert(*e == compiled.evidence@[h.index]);
        moments.push(
            EvidenceMoment {
                id: e.id.clone(),
                start_ms: e.start_ms,
                timestamp_label: timestamp_label(e.start_ms),
                end_ms: e.end_ms,
                timestamp_url: timestamp_url(compiled.source.canonical_url.as_str(), e.start_ms),
                excerpt: e.text.clone(),
                evidence_kind: "transcript",
                language: e.transcript.language.clone(),
                caption_provenance: e.transcript.captions,
                score: result.score,
                matched_terms: names,
            },
        );
        assert(moment_matches(moments@[k as int], compiled.evidence@[h.index]@, h, compiled.source.canonical_url@));
        assert forall|j: int| 0 <= j < k + 1 implies moment_for(
            #[trigger] moments@[j],
            compiled.evidence@,
            hits[j],
            compiled.source.canonical_url@,
        ) by {
            if j < k {
                assert(moments@[j] == before[j]);
            }
        }
        k = k + 1;
    }
    Ok(
        EvidencePacket {
            source: compiled.source.duplicate(),
            source_version: compiled.source_version.clone(),
            metadata: compiled.metadata.duplicate(),
            coverage: compiled.coverage,
            acquisition: compiled.acquisition.duplicate(),
            cache,
            query: query.text.clone(),
            moments,
            warnings: source_warnings_of(compiled),
        },
    )
}


/// Why the engine could not answer.
#[derive(Clone, Debug, PartialEq, Eq)]
pub enum EngineError {
    Source(crate::source::SourceError),
    Provider(crate::provider::ytdlp::ProviderError),
    Store(crate::store::StoreError),
    Search(SearchError),
    RefreshWithoutCache,
}

/// The reader-facing text of an engine error: that of the failure it
/// carries.
pub open spec fn engine_error_text(e: EngineError) -> Seq<char> {
    match e {
        EngineError::Source(x) => crate::source::source_error_text(x),
        EngineError::Provider(x) => crate::provider::ytdlp::provider_error_text(x@),
        EngineError::Store(x) => crate::store::store_error_text(x@),
        EngineError::Search(x) => crate::search::search_error_text(x),
        EngineError::RefreshWithoutCache => "source refresh requires a configured cache"@,
    }
}

impl EngineError {
    /// What went wrong, for a reader.
    pub fn message(&self) -> (r: String)
        ensures
            r@ == engine_error_text(*self),
    {
        match self {
            EngineError::Source(x) => x.message(),
            EngineError::Provider(x) => x.message(),
            EngineError::Store(x) => x.message(),
            EngineError::Search(x) => x.message(),
            EngineError::RefreshWithoutCache => "source refresh requires a configured cache".to_owned(),
        }
    }
}

/// The engine every surface shares: one provider, and a cache when one is
/// configured.
#[derive(Clone, Debug)]
pub struct SourceEngine {
    pub provider: crate::provider::ytdlp::YtDlpProvider,
    pub store: Option<crate::store::FileSourceStore>,
}

/// The report of a request that the cache answers: a hit, when the
/// request asks for no refresh and a version is cached; `None` when the
/// source has to be acquired.
pub open spec fn planned_report(refresh: bool, cached: bool) -> Option<CacheReport> {
    if !refresh && cached {
        Some(CacheReport { status: CacheStatus::Hit, source_changed: None })
    } else {
        None
    }
}

/// The version of the cached source, if one was found.
pub open spec fn previous_version(previous: Option<CompiledSource>) -> Option<Seq<char>> {
    match previous {
        Some(p) => Some(p.source_version@),
        None => None,
    }
}

/// The report of a request answered by acquiring the source: a refresh
/// says whether the version changed from the cached one, when there was
/// one; otherwise a miss, or disabled when no cache is configured.
pub open spec fn acquired_report_spec(
    refresh: bool,
    has_store: bool,
    previous: Option<Seq<char>>,
    acquired_version: Seq<char>,
) -> CacheReport {
    if refresh {
        CacheReport {
            status: CacheStatus::Refreshed,
            source_changed: match previous {
                Some(v) => Some(v != acquired_version),
                None => None,
            },
        }
    } else if has_store {
        CacheReport { status: CacheStatus::Miss, source_changed: None }
    } else {
        CacheReport { status: CacheStatus::Disabled, source_changed: None }
    }
}

/// The report a resolved request is answered with.
pub open spec fn resolved_report(
    refresh: bool,
    has_store: bool,
    previous: Option<Seq<char>>,
    acquired_version: Seq<char>,
) -> CacheReport {
    match planned_report(refresh, previous is Some) {
        Some(report) => report,
        None => acquired_report_spec(refresh, has_store, previous, acquired_version),
    }
}

/// How a request is answered once the cache has been consulted.
#[derive(Clone, Debug)]
pub enum Resolution {
    Cached(CompiledSource, CacheReport),
    Acquire,
}

impl SourceEngine {
    /// An engine with the default provider and, when a directory is given,
    /// a cache there.
    pub fn new(cache_dir: Option<String>) -> (e: SourceEngine)
        ensures
            e.provider.executable@ == "yt-dlp"@,
            match cache_dir {
                Some(d) => e.store matches Some(s) && s.root@ == d@,
                None => e.store is None,
            },
    {
        SourceEngine::with_provider(cache_dir, crate::provider::ytdlp::YtDlpProvider::default_provider())
    }

    /// An engine with the given provider.
    pub fn with_provider(cache_dir: Option<String>, provider: crate::provider::ytdlp::YtDlpProvider) -> (e:
        SourceEngine)
        ensures
            e.provider.executable@ == provider.executable@,
            match cache_dir {
                Some(d) => e.store matches Some(s) && s.root@ == d@,
                None => e.store is None,
            },
    {
        let store = match cache_dir {
            Some(d) => Some(crate::store::FileSourceStore::new(d)),
            None => None,
        };
        SourceEngine { provider, store }
    }

    /// The first step of answering a request: a refresh needs a cache, and
    /// is refused before anything else is done; then the source must
    /// resolve.
    pub fn begin(&self, input: &str, refresh: bool) -> (r: Result<CanonicalSource, EngineError>)
        ensures
            refresh && self.store is None ==> r == Err::<CanonicalSource, EngineError>(
                EngineError::RefreshWithoutCache,
            ),
            !(refresh && self.store is None) ==> match crate::source::resolve_id(input@) {
                Err(e) => r == Err::<CanonicalSource, EngineError>(EngineError::Source(e)),
                Ok(id) => r matches Ok(c) && c.source_id@ == id && c.canonical_url@
                    == crate::source::watch_url(id) && c.provider
                    == crate::source::SourceProvider::YouTube,
            },
    {
        if refresh && self.store.is_none() {
            return Err(EngineError::RefreshWithoutCache);
        }
        match crate::source::canonicalise_source(input) {
            Ok(c) => Ok(c),
            Err(e) => Err(EngineError::Source(e)),
        }
    }

    /// Decides whether the cached version answers the request: a refresh
    /// always reacquires; otherwise a cached version is a hit, and its
    /// absence a reason to acquire.
    pub fn plan(&self, refresh: bool, previous: Option<CompiledSource>) -> (r: Resolution)
        ensures
            match planned_report(refresh, previous is Some) {
                Some(report) => r matches Resolution::Cached(c, rep) && c@ == previous->0@ && rep
                    == report,
                None => r is Acquire,
            },
    {
        if refresh {
            return Resolution::Acquire;
        }
        match previous {
            Some(cached) => Resolution::Cached(
                cached,
                CacheReport { status: CacheStatus::Hit, source_changed: None },
            ),
            None => Resolution::Acquire,
        }
    }

    /// Answers a search once its source has been resolved: the packet of
    /// the resolved source for the query, or the search's error.
    pub fn search_source(&self, compiled: &CompiledSource, cache: CacheReport, query: &SearchQuery) -> (r:
        Result<EvidencePacket, EngineError>)
        requires
            crate::search::searchable_terms(query.text@).len() <= crate::search::MAX_QUERY_TERMS,
        ensures
            match search_result(
                evidence_views(compiled.evidence@),
                query.text@,
                query.limit,
                query.start_ms,
                query.end_ms,
            ) {
                Err(e) => r == Err::<EvidencePacket, EngineError>(EngineError::Search(e)),
                Ok(hits) => r matches Ok(p) && packet_answers(*compiled, *query, cache, hits, p),
            },
    {
        match evidence_packet(compiled, query, cache) {
            Ok(p) => Ok(p),
            Err(e) => Err(EngineError::Search(e)),
        }
    }

    /// Answers a search once its source has been resolved, when the query
    /// is small enough to be scored; `None` when it holds more distinct
    /// terms than a score can count.
    pub fn search_source_within_bounds(
        &self,
        compiled: &CompiledSource,
        cache: CacheReport,
        query: &SearchQuery,
    ) -> (r: Option<Result<EvidencePacket, EngineError>>)
        ensures
            r is None <==> crate::search::searchable_terms(query.text@).len()
                > crate::search::MAX_QUERY_TERMS,
            r is Some ==> match search_result(
                evidence_views(compiled.evidence@),
                query.text@,
                query.limit,
                query.start_ms,
                query.end_ms,
            ) {
                Err(e) => r == Some(Err::<EvidencePacket, EngineError>(EngineError::Search(e))),
                Ok(hits) => r matches Some(Ok(p)) && packet_answers(*compiled, *query, cache, hits, p),
            },
    {
        if !crate::search::query_within_bounds(query) {
            return None;
        }
        Some(self.search_source(compiled, cache, query))
    }

    /// Answers a whole-source read once its source has been resolved.
    pub fn read_source(&self, compiled: &CompiledSource, cache: CacheReport) -> (p: TranscriptPacket)
        ensures
            transcript_answers(*compiled, cache, p),
    {
        transcript_packet(compiled, cache)
    }

    /// How a freshly acquired source reports its cache use: a refresh says
    /// whether the source changed from the cached version, if there was
    /// one; otherwise it was a miss, or the cache is disabled.
    pub fn acquired_report(
        &self,
        refresh: bool,
        previous: &Option<CompiledSource>,
        acquired: &CompiledSource,
    ) -> (r: CacheReport)
        ensures
            r == acquired_report_spec(
                refresh,
                self.store is Some,
                previous_version(*previous),
                acquired.source_version@,
            ),
    {
        if refresh {
            let source_changed = match previous {
                Some(p) => Some(
                    !crate::text::chars_eq(
                        &chars_of(p.source_version.as_str()),
                        &chars_of(acquired.source_version.as_str()),
                    ),
                ),
                None => None,
            };
            CacheReport { status: CacheStatus::Refreshed, source_changed }
        } else if self.store.is_some() {
            CacheReport { status: CacheStatus::Miss, source_changed: None }
        } else {
            CacheReport { status: CacheStatus::Disabled, source_changed: None }
        }
    }
}


/// Reading a source whole and searching it answer with the same headers:
/// for one resolved source and cache report, the read and a successful
/// search carry the same identity, version, metadata, coverage,
/// acquisition record, cache report and warnings.
pub proof fn law_read_and_search_share_headers(
    compiled: CompiledSource,
    cache: CacheReport,
    query: SearchQuery,
    hits: Seq<Hit>,
    searched: EvidencePacket,
    read: TranscriptPacket,
)
    requires
        packet_answers(compiled, query, cache, hits, searched),
        transcript_answers(compiled, cache, read),
    ensures
        searched.source@ == read.source@,
        searched.source_version@ == read.source_version@,
        searched.metadata@ == read.metadata@,
        searched.coverage == read.coverage,
        searched.acquisition@ == read.acquisition@,
        searched.cache == read.cache,
        str_views(searched.warnings@) == str_views(read.warnings@),
{
}

/// A request is answered with one of four cache statuses, each in exactly
/// one situation: a hit when it asks for no refresh and the cache holds
/// the source; a miss when a cache is configured but holds nothing; a
/// disabled cache when none is configured; a refresh when it asks for one,
/// which needs a cache. A refresh tells whether the version changed
/// exactly when there was a cached version to compare it with.
pub proof fn law_four_cache_statuses(
    refresh: bool,
    has_store: bool,
    previous: Option<Seq<char>>,
    acquired_version: Seq<char>,
)
    requires
        refresh ==> has_store,
        !has_store ==> previous is None,
    ensures
        ({
            let r = resolved_report(refresh, has_store, previous, acquired_version);
            &&& (r.status == CacheStatus::Hit <==> !refresh && previous is Some)
            &&& (r.status == CacheStatus::Miss <==> !refresh && has_store && previous is None)
            &&& (r.status == CacheStatus::Disabled <==> !has_store)
            &&& (r.status == CacheStatus::Refreshed <==> refresh)
            &&& (r.source_changed is Some <==> refresh && previous is Some)
            &&& (refresh && previous is Some ==> r.source_changed == Some(
                previous->0 != acquired_version,
            ))
        }),
{
}

/// A source acquired on a miss or a refresh, once saved, answers the next
/// request from the cache: the load serves exactly that source, by its
/// own language or by none, and the request is a hit.
pub proof fn law_saved_acquisitions_are_hits(c: CompiledSourceView)
    requires
        crate::store::save_digest_spec(c) is Ok,
    ensures
        ({
            let d = crate::store::save_digest_spec(c)->Ok_0;
            &&& crate::store::load_outcome(
                crate::store::STORE_SCHEMA_VERSION,
                c,
                c.source,
                crate::store::stored_language(c),
                d,
            ) == Ok::<Option<CompiledSourceView>, crate::store::StoreErrorView>(Some(c))
            &&& crate::store::load_outcome(crate::store::STORE_SCHEMA_VERSION, c, c.source, None, d)
                == Ok::<Option<CompiledSourceView>, crate::store::StoreErrorView>(Some(c))
            &&& planned_report(false, true) == Some(
                CacheReport { status: CacheStatus::Hit, source_changed: None },
            )
        }),
{
}

} // verus!
