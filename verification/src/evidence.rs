//! The shared evidence model: what a compiled source records.
use vstd::prelude::*;

use crate::source::{CanonicalSource, CanonicalSourceView};

verus! {

/// How the words of a transcript were produced.
#[derive(Clone, Copy, Debug, PartialEq, Eq, Structural)]
pub enum CaptionProvenance {
    Manual,
    Generated,
    LocalTranscription,
}

#[derive(Clone, Debug, PartialEq, Eq)]
pub struct SourceMetadata {
    pub title: String,
    pub creator: String,
    pub duration_ms: u64,
}

pub struct SourceMetadataView {
    pub title: Seq<char>,
    pub creator: Seq<char>,
    pub duration_ms: u64,
}

impl View for SourceMetadata {
    type V = SourceMetadataView;

    open spec fn view(&self) -> SourceMetadataView {
        SourceMetadataView { title: self.title@, creator: self.creator@, duration_ms: self.duration_ms }
    }
}

#[derive(Clone, Debug, PartialEq, Eq)]
pub struct TranscriptProvenance {
    pub language: String,
    pub captions: CaptionProvenance,
}

pub struct TranscriptProvenanceView {
    pub language: Seq<char>,
    pub captions: CaptionProvenance,
}

impl View for TranscriptProvenance {
    type V = TranscriptProvenanceView;

    open spec fn view(&self) -> TranscriptProvenanceView {
        TranscriptProvenanceView { language: self.language@, captions: self.captions }
    }
}

/// One timestamped span of transcript evidence.
#[derive(Clone, Debug, PartialEq, Eq)]
pub struct Evidence {
    pub id: String,
    pub start_ms: u64,
    pub end_ms: u64,
    pub text: String,
    pub transcript: TranscriptProvenance,
}

pub struct EvidenceView {
    pub id: Seq<char>,
    pub start_ms: u64,
    pub end_ms: u64,
    pub text: Seq<char>,
    pub transcript: TranscriptProvenanceView,
}

impl View for Evidence {
    type V = EvidenceView;

    open spec fn view(&self) -> EvidenceView {
        EvidenceView {
            id: self.id@,
            start_ms: self.start_ms,
            end_ms: self.end_ms,
            text: self.text@,
            transcript: self.transcript@,
        }
    }
}

/// Which parts of a source the evidence covers.
#[derive(Clone, Copy, Debug, PartialEq, Eq, Structural)]
pub struct Coverage {
    pub metadata: bool,
    pub transcript_start_ms: u64,
    pub transcript_end_ms: u64,
    pub transcript_complete: bool,
    pub visuals_processed: bool,
}

#[derive(Clone, Debug, PartialEq, Eq)]
pub struct ToolProvenance {
    pub name: String,
    pub version: String,
}

pub struct ToolProvenanceView {
    pub name: Seq<char>,
    pub version: Seq<char>,
}

impl View for ToolProvenance {
    type V = ToolProvenanceView;

    open spec fn view(&self) -> ToolProvenanceView {
        ToolProvenanceView { name: self.name@, version: self.version@ }
    }
}

#[derive(Clone, Debug, PartialEq, Eq)]
pub struct AcquisitionProvenance {
    pub adapter: String,
    pub source_format: String,
    pub tool: Option<ToolProvenance>,
}

pub struct AcquisitionProvenanceView {
    pub adapter: Seq<char>,
    pub source_format: Seq<char>,
    pub tool: Option<ToolProvenanceView>,
}

impl View for AcquisitionProvenance {
    type V = AcquisitionProvenanceView;

    open spec fn view(&self) -> AcquisitionProvenanceView {
        AcquisitionProvenanceView {
            adapter: self.adapter@,
            source_format: self.source_format@,
            tool: match self.tool {
                Some(t) => Some(t@),
                None => None,
            },
        }
    }
}

/// A source compiled into validated, timestamped evidence.
#[derive(Clone, Debug, PartialEq, Eq)]
pub struct CompiledSource {
    pub source: CanonicalSource,
    pub source_version: String,
    pub metadata: SourceMetadata,
    pub evidence: Vec<Evidence>,
    pub coverage: Coverage,
    pub acquisition: AcquisitionProvenance,
}

pub struct CompiledSourceView {
    pub source: CanonicalSourceView,
    pub source_version: Seq<char>,
    pub metadata: SourceMetadataView,
    pub evidence: Seq<EvidenceView>,
    pub coverage: Coverage,
    pub acquisition: AcquisitionProvenanceView,
}

/// The views of a sequence of evidence spans.
pub open spec fn evidence_views(evidence: Seq<Evidence>) -> Seq<EvidenceView> {
    evidence.map_values(|e: Evidence| e@)
}

impl View for CompiledSource {
    type V = CompiledSourceView;

    open spec fn view(&self) -> CompiledSourceView {
        CompiledSourceView {
            source: self.source@,
            source_version: self.source_version@,
            metadata: self.metadata@,
            evidence: evidence_views(self.evidence@),
            coverage: self.coverage,
            acquisition: self.acquisition@,
        }
    }
}


impl SourceMetadata {
    /// A field-by-field copy.
    pub fn duplicate(&self) -> (r: SourceMetadata)
        ensures
            r@ == self@,
    {
        SourceMetadata {
            title: self.title.clone(),
            creator: self.creator.clone(),
            duration_ms: self.duration_ms,
        }
    }
}

impl TranscriptProvenance {
    /// A field-by-field copy.
    pub fn duplicate(&self) -> (r: TranscriptProvenance)
        ensures
            r@ == self@,
    {
        TranscriptProvenance { language: self.language.clone(), captions: self.captions }
    }

    /// Whether two provenances record the same language and captions.
    pub fn same_as(&self, other: &TranscriptProvenance) -> (r: bool)
        ensures
            r == (self@ == other@),
    {
        self.language == other.language && self.captions == other.captions
    }
}

impl Evidence {
    /// A field-by-field copy.
    pub fn duplicate(&self) -> (r: Evidence)
        ensures
            r@ == self@,
    {
        Evidence {
            id: self.id.clone(),
            start_ms: self.start_ms,
            end_ms: self.end_ms,
            text: self.text.clone(),
            transcript: self.transcript.duplicate(),
        }
    }

    /// Whether two spans record the same evidence.
    pub fn same_as(&self, other: &Evidence) -> (r: bool)
        ensures
            r == (self@ == other@),
    {
        self.id == other.id && self.start_ms == other.start_ms && self.end_ms == other.end_ms
            && self.text == other.text && self.transcript.same_as(&other.transcript)
    }
}

impl AcquisitionProvenance {
    /// A field-by-field copy.
    pub fn duplicate(&self) -> (r: AcquisitionProvenance)
        ensures
            r@ == self@,
    {
        AcquisitionProvenance {
            adapter: self.adapter.clone(),
            source_format: self.source_format.clone(),
            tool: match &self.tool {
                Some(t) => Some(ToolProvenance { name: t.name.clone(), version: t.version.clone() }),
                None => None,
            },
        }
    }

    /// Whether two acquisition records are the same.
    pub fn same_as(&self, other: &AcquisitionProvenance) -> (r: bool)
        ensures
            r == (self@ == other@),
    {
        let tools = match (&self.tool, &other.tool) {
            (Some(a), Some(b)) => a.name == b.name && a.version == b.version,
            (None, None) => true,
            _ => false,
        };
        self.adapter == other.adapter && self.source_format == other.source_format && tools
    }
}

impl CompiledSource {
    /// Whether two compiled sources hold the same identity, metadata,
    /// evidence, coverage and acquisition record, whatever their versions.
    pub fn same_apart_from_version(&self, other: &CompiledSource) -> (r: bool)
        ensures
            r == (self@.source == other@.source && self@.metadata == other@.metadata
                && self@.evidence == other@.evidence && self@.coverage == other@.coverage
                && self@.acquisition == other@.acquisition),
    {
        if !self.source.same_as(&other.source) || self.metadata.title != other.metadata.title
            || self.metadata.creator != other.metadata.creator || self.metadata.duration_ms
            != other.metadata.duration_ms || self.coverage != other.coverage
            || !self.acquisition.same_as(&other.acquisition) || self.evidence.len()
            != other.evidence.len() {
            proof {
                assert(evidence_views(self.evidence@).len() == self.evidence@.len());
                assert(evidence_views(other.evidence@).len() == other.evidence@.len());
            }
            return false;
        }
        let mut i: usize = 0;
        while i < self.evidence.len()
            invariant
                i <= self.evidence.len(),
                self.evidence.len() == other.evidence.len(),
                forall|k: int| 0 <= k < i ==> self.evidence@[k]@ == other.evidence@[k]@,
            decreases self.evidence.len() - i,
        {
            if !self.evidence[i].same_as(&other.evidence[i]) {
                proof {
                    assert(evidence_views(self.evidence@)[i as int] == self.evidence@[i as int]@);
                    assert(evidence_views(other.evidence@)[i as int] == other.evidence@[i as int]@);
                }
                return false;
            }
            i = i + 1;
        }
        assert(evidence_views(self.evidence@) =~= evidence_views(other.evidence@));
        true
    }

    /// Whether two compiled sources hold the same identity, version,
    /// metadata, evidence, coverage and acquisition record.
    pub fn same_as(&self, other: &CompiledSource) -> (r: bool)
        ensures
            r == (self@ == other@),
    {
        self.same_apart_from_version(other) && self.source_version == other.source_version
    }
}

} // verus!
