//! Typed evidence records with provenance for the Link context capsule.
//!
//! Evidence is stored as small typed records instead of prose lines so each
//! fact keeps its provenance: what kind of fact it is, whether the host
//! observed it or the model reported it, which turn, call or process produced
//! it, and whether it predates the current process (`stale`). The capsule shows
//! records as bounded one-liners.

use vstd::prelude::*;

use crate::clock::now_ms;
use crate::lists::{drop_oldest, keep_last};
use crate::split::{join, join_strings};
use crate::text::{blank, clone_opt, clone_strings, is_blank, opt_text, owned, str_eq, texts};

verus! {

/// What kind of fact a record holds.
#[derive(Clone, Copy, Debug, PartialEq, Eq, Structural)]
pub enum EvidenceKind {
    Decision,
    Observation,
    PlanUpdate,
    Blocker,
    TestResult,
    ToolResult,
    FileChange,
    JobEvent,
}

/// Who vouches for a record.
#[derive(Clone, Copy, Debug, PartialEq, Eq, Structural)]
pub enum EvidenceSource {
    HostObserved,
    ModelReported,
}

/// How much the record should be trusted before re-verification. Host-observed
/// records default to `High`; model-reported records default to `Medium`
/// because the model may misremember or overstate what it verified.
#[derive(Clone, Copy, Debug, PartialEq, Eq, Structural)]
pub enum EvidenceConfidence {
    High,
    Medium,
    Low,
}

/// One fact with its provenance.
#[derive(Debug, PartialEq, Eq)]
pub struct EvidenceRecord {
    pub kind: EvidenceKind,
    pub source: EvidenceSource,
    pub summary: String,
    /// Turn, call, or process identifier that produced this record.
    pub source_ref: Option<String>,
    pub related_paths: Vec<String>,
    pub confidence: EvidenceConfidence,
    /// Host clock at recording time (Unix millis); informational only.
    pub created_at_ms: Option<i64>,
    /// Set when the record predates the current process. Stale facts must be
    /// re-verified against live state before they are load-bearing.
    pub stale: bool,
}

/// The texts of an [`EvidenceRecord`].
pub struct EvidenceView {
    pub kind: EvidenceKind,
    pub source: EvidenceSource,
    pub summary: Seq<char>,
    pub source_ref: Option<Seq<char>>,
    pub related_paths: Seq<Seq<char>>,
    pub confidence: EvidenceConfidence,
    pub created_at_ms: Option<i64>,
    pub stale: bool,
}

impl View for EvidenceRecord {
    type V = EvidenceView;

    open spec fn view(&self) -> EvidenceView {
        EvidenceView {
            kind: self.kind,
            source: self.source,
            summary: self.summary@,
            source_ref: opt_text(self.source_ref),
            related_paths: texts(self.related_paths@),
            confidence: self.confidence,
            created_at_ms: self.created_at_ms,
            stale: self.stale,
        }
    }
}

impl EvidenceKind {
    /// The tag of a kind.
    pub open spec fn tag(self) -> Seq<char> {
        match self {
            EvidenceKind::Decision => "decision"@,
            EvidenceKind::Observation => "observation"@,
            EvidenceKind::PlanUpdate => "plan"@,
            EvidenceKind::Blocker => "blocker"@,
            EvidenceKind::TestResult => "test"@,
            EvidenceKind::ToolResult => "tool"@,
            EvidenceKind::FileChange => "file"@,
            EvidenceKind::JobEvent => "job"@,
        }
    }

    /// The tag of a kind.
    pub fn label(self) -> (r: &'static str)
        ensures
            r@ == self.tag(),
    {
        match self {
            EvidenceKind::Decision => "decision",
            EvidenceKind::Observation => "observation",
            EvidenceKind::PlanUpdate => "plan",
            EvidenceKind::Blocker => "blocker",
            EvidenceKind::TestResult => "test",
            EvidenceKind::ToolResult => "tool",
            EvidenceKind::FileChange => "file",
            EvidenceKind::JobEvent => "job",
        }
    }
}

impl Default for EvidenceKind {
    fn default() -> (r: Self)
        ensures
            r is Observation,
    {
        EvidenceKind::Observation
    }
}

impl EvidenceSource {
    /// The tag of a source.
    pub open spec fn tag(self) -> Seq<char> {
        match self {
            EvidenceSource::HostObserved => "host"@,
            EvidenceSource::ModelReported => "model"@,
        }
    }

    /// The tag of a source.
    pub fn label(self) -> (r: &'static str)
        ensures
            r@ == self.tag(),
    {
        match self {
            EvidenceSource::HostObserved => "host",
            EvidenceSource::ModelReported => "model",
        }
    }
}

impl Default for EvidenceSource {
    fn default() -> (r: Self)
        ensures
            r is HostObserved,
    {
        EvidenceSource::HostObserved
    }
}

impl EvidenceConfidence {
    /// The tag of a confidence.
    pub open spec fn tag(self) -> Seq<char> {
        match self {
            EvidenceConfidence::High => "high"@,
            EvidenceConfidence::Medium => "medium"@,
            EvidenceConfidence::Low => "low"@,
        }
    }

    /// The tag of a confidence.
    pub fn label(self) -> (r: &'static str)
        ensures
            r@ == self.tag(),
    {
        match self {
            EvidenceConfidence::High => "high",
            EvidenceConfidence::Medium => "medium",
            EvidenceConfidence::Low => "low",
        }
    }
}

impl Default for EvidenceConfidence {
    fn default() -> (r: Self)
        ensures
            r is Medium,
    {
        EvidenceConfidence::Medium
    }
}

impl EvidenceView {
    /// A fact that the host observed, at a time.
    pub open spec fn observed(
        kind: EvidenceKind,
        summary: Seq<char>,
        created_at_ms: Option<i64>,
    ) -> EvidenceView {
        EvidenceView {
            kind,
            source: EvidenceSource::HostObserved,
            summary,
            source_ref: None,
            related_paths: Seq::empty(),
            confidence: EvidenceConfidence::High,
            created_at_ms,
            stale: false,
        }
    }

    /// A fact that the model reported, at a time.
    pub open spec fn reported(
        kind: EvidenceKind,
        summary: Seq<char>,
        created_at_ms: Option<i64>,
    ) -> EvidenceView {
        EvidenceView {
            source: EvidenceSource::ModelReported,
            confidence: EvidenceConfidence::Medium,
            ..EvidenceView::observed(kind, summary, created_at_ms)
        }
    }

    /// What tells two facts apart.
    pub open spec fn identity(self) -> (EvidenceKind, Seq<char>, Option<Seq<char>>) {
        (self.kind, self.summary, self.source_ref)
    }

    /// The tags in front of a rendered record.
    pub open spec fn tags(self) -> Seq<char> {
        self.kind.tag() + ", "@ + self.source.tag() + (if self.confidence is High {
            Seq::empty()
        } else {
            ", conf="@ + self.confidence.tag()
        }) + (if self.stale {
            ", stale"@
        } else {
            Seq::empty()
        })
    }

    /// The rendered record.
    pub open spec fn rendered(self) -> Seq<char> {
        "["@ + self.tags() + "] "@ + self.summary + (match self.source_ref {
            Some(source_ref) => " ("@ + source_ref + ")"@,
            None => Seq::empty(),
        }) + (if self.related_paths.len() == 0 {
            Seq::empty()
        } else {
            " paths: "@ + join(self.related_paths, ", "@)
        })
    }
}

/// The texts of a list of records.
pub open spec fn record_views(records: Seq<EvidenceRecord>) -> Seq<EvidenceView> {
    Seq::new(records.len(), |i: int| records[i]@)
}

/// Whether a list holds a fact.
pub open spec fn holds_fact(
    records: Seq<EvidenceView>,
    identity: (EvidenceKind, Seq<char>, Option<Seq<char>>),
) -> bool {
    exists|i: int| 0 <= i < records.len() && (#[trigger] records[i]).identity() == identity
}

/// The list with one more record, unless that is blank or there already, of
/// which the last `max_len` stay.
pub open spec fn with_record(
    records: Seq<EvidenceView>,
    record: EvidenceView,
    max_len: nat,
) -> Seq<EvidenceView> {
    if is_blank(record.summary) || holds_fact(records, record.identity()) {
        records
    } else {
        keep_last(records.push(record), max_len)
    }
}

impl EvidenceRecord {
    /// A fact that the host observed at a given time.
    pub fn host_at(kind: EvidenceKind, summary: String, created_at_ms: Option<i64>) -> (r: Self)
        ensures
            r@ == EvidenceView::observed(kind, summary@, created_at_ms),
    {
        let r = EvidenceRecord {
            kind,
            source: EvidenceSource::HostObserved,
            summary,
            source_ref: None,
            related_paths: Vec::new(),
            confidence: EvidenceConfidence::High,
            created_at_ms,
            stale: false,
        };
        assert(texts(r.related_paths@) =~= Seq::empty());
        r
    }

    /// A fact that the model reported at a given time.
    pub fn model_at(kind: EvidenceKind, summary: String, created_at_ms: Option<i64>) -> (r: Self)
        ensures
            r@ == EvidenceView::reported(kind, summary@, created_at_ms),
    {
        let mut r = EvidenceRecord::host_at(kind, summary, created_at_ms);
        r.source = EvidenceSource::ModelReported;
        r.confidence = EvidenceConfidence::Medium;
        r
    }

    /// A fact that the host observed just now.
    pub fn host(kind: EvidenceKind, summary: String) -> (r: Self)
        ensures
            r@ == EvidenceView::observed(kind, summary@, r.created_at_ms),
            r.created_at_ms matches Some(millis) ==> millis >= 0,
    {
        EvidenceRecord::host_at(kind, summary, now_ms())
    }

    /// A fact that the model reported just now.
    pub fn model(kind: EvidenceKind, summary: String) -> (r: Self)
        ensures
            r@ == EvidenceView::reported(kind, summary@, r.created_at_ms),
            r.created_at_ms matches Some(millis) ==> millis >= 0,
    {
        EvidenceRecord::model_at(kind, summary, now_ms())
    }

    /// The record with another confidence.
    pub fn with_confidence(self, confidence: EvidenceConfidence) -> (r: Self)
        ensures
            r@ == (EvidenceView { confidence, ..self@ }),
    {
        let mut r = self;
        r.confidence = confidence;
        r
    }

    /// The record with a reference to what produced it.
    pub fn with_source_ref(self, source_ref: String) -> (r: Self)
        ensures
            r@ == (EvidenceView { source_ref: Some(source_ref@), ..self@ }),
    {
        let mut r = self;
        r.source_ref = Some(source_ref);
        r
    }

    /// The record with the paths that it is about.
    pub fn with_related_paths(self, paths: Vec<String>) -> (r: Self)
        ensures
            r@ == (EvidenceView { related_paths: texts(paths@), ..self@ }),
    {
        let mut r = self;
        r.related_paths = paths;
        r
    }

    /// Whether two records hold the same fact; when it was recorded, and
    /// whether it is stale, does not matter.
    pub fn same_fact(&self, other: &Self) -> (r: bool)
        ensures
            r == (self@.identity() == other@.identity()),
    {
        let same_ref = match (&self.source_ref, &other.source_ref) {
            (Some(a), Some(b)) => str_eq(a.as_str(), b.as_str()),
            (None, None) => true,
            _ => false,
        };
        self.kind == other.kind && str_eq(self.summary.as_str(), other.summary.as_str())
            && same_ref
    }

    /// Renders the record as one capsule line (unbounded; the capsule renderer
    /// applies char and token limits).
    pub fn render(&self) -> (r: String)
        ensures
            r@ == self@.rendered(),
    {
        let mut out = owned("[");
        out.append(self.kind.label());
        out.append(", ");
        out.append(self.source.label());
        match self.confidence {
            EvidenceConfidence::High => {},
            _ => {
                out.append(", conf=");
                out.append(self.confidence.label());
            },
        }
        if self.stale {
            out.append(", stale");
        }
        assert(out@ =~= "["@ + self@.tags());
        out.append("] ");
        out.append(self.summary.as_str());
        let ghost head = out@;
        match &self.source_ref {
            Some(source_ref) => {
                out.append(" (");
                out.append(source_ref.as_str());
                out.append(")");
            },
            None => {},
        }
        let ghost middle = out@;
        if self.related_paths.len() > 0 {
            out.append(" paths: ");
            out.append(join_strings(&self.related_paths, ", ").as_str());
        }
        assert(texts(self.related_paths@).len() == self.related_paths.len());
        assert(out@ =~= self@.rendered());
        out
    }
}

impl Clone for EvidenceRecord {
    fn clone(&self) -> (r: Self)
        ensures
            r@ == self@,
    {
        EvidenceRecord {
            kind: self.kind,
            source: self.source,
            summary: self.summary.clone(),
            source_ref: clone_opt(&self.source_ref),
            related_paths: clone_strings(&self.related_paths),
            confidence: self.confidence,
            created_at_ms: self.created_at_ms,
            stale: self.stale,
        }
    }
}

impl Default for EvidenceRecord {
    fn default() -> (r: Self)
        ensures
            r@ == (EvidenceView {
                confidence: EvidenceConfidence::Medium,
                ..EvidenceView::observed(EvidenceKind::Observation, Seq::empty(), None)
            }),
    {
        let summary = String::new();
        assert(summary@ =~= Seq::empty());
        let mut r = EvidenceRecord::host_at(EvidenceKind::default(), summary, None);
        r.confidence = EvidenceConfidence::default();
        r
    }
}

/// Appends a record unless an equivalent fact is already present, dropping the
/// oldest records beyond `max_len`.
pub fn push_evidence(records: &mut Vec<EvidenceRecord>, record: EvidenceRecord, max_len: usize)
    ensures
        record_views(final(records)@) == with_record(
            record_views(old(records)@),
            record@,
            max_len as nat,
        ),
{
    if blank(record.summary.as_str()) {
        return;
    }
    let ghost all = record_views(records@);
    let mut i: usize = 0;
    while i < records.len()
        invariant
            i <= records.len(),
            *records == *old(records),
            all == record_views(records@),
            !is_blank(record@.summary),
            forall|j: int| 0 <= j < i ==> (#[trigger] all[j]).identity() != record@.identity(),
        decreases records.len() - i,
    {
        if records[i].same_fact(&record) {
            assert(all[i as int].identity() == record@.identity());
            return;
        }
        assert(all[i as int].identity() != record@.identity());
        i += 1;
    }
    records.push(record);
    let ghost before = records@;
    assert(record_views(before) =~= all.push(record@));
    drop_oldest(records, max_len);
    assert(record_views(records@) =~= keep_last(record_views(before), max_len as nat));
}

/// Recording a fact again changes nothing, whenever it was recorded and
/// whether or not it is stale by now.
pub proof fn lemma_record_again(
    records: Seq<EvidenceView>,
    record: EvidenceView,
    again: EvidenceView,
    max_len: nat,
)
    requires
        again.identity() == record.identity(),
    ensures
        with_record(with_record(records, record, max_len), again, max_len) == with_record(
            records,
            record,
            max_len,
        ),
{
    let once = with_record(records, record, max_len);
    if !is_blank(record.summary) && !holds_fact(records, record.identity()) {
        if max_len > 0 {
            assert(once[once.len() - 1].identity() == again.identity());
        } else {
            assert(once =~= Seq::empty());
            assert(keep_last(once.push(again), max_len) =~= Seq::empty());
        }
    }
}

/// A list within its bound stays within it, and no fact comes to stand in it
/// twice.
pub proof fn lemma_records_bound(
    records: Seq<EvidenceView>,
    record: EvidenceView,
    max_len: nat,
)
    requires
        records.len() <= max_len,
        forall|i: int, j: int|
            0 <= i < j < records.len() ==> (#[trigger] records[i]).identity() != (
            #[trigger] records[j]).identity(),
    ensures
        with_record(records, record, max_len).len() <= max_len,
        forall|i: int, j: int|
            0 <= i < j < with_record(records, record, max_len).len() ==> (#[trigger] with_record(
                records,
                record,
                max_len,
            )[i]).identity() != (#[trigger] with_record(records, record, max_len)[j]).identity(),
{
    let after = with_record(records, record, max_len);
    if !is_blank(record.summary) && !holds_fact(records, record.identity()) {
        let all = records.push(record);
        let shift = all.len() - after.len();
        assert forall|i: int, j: int| 0 <= i < j < after.len() implies (
        #[trigger] after[i]).identity() != (#[trigger] after[j]).identity() by {
            assert(after[i] == all[i + shift] && after[j] == all[j + shift]);
            assert(all[i + shift] == records[i + shift]);
            if j + shift < records.len() {
                assert(all[j + shift] == records[j + shift]);
            }
        }
    }
}

} // verus!
