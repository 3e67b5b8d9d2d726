//! Model-facing tool for recording durable task facts. This is the write path
//! for model-side facts (decisions, plan updates, blockers, verified
//! observations) that the host cannot observe on its own and that must survive
//! compaction.

use vstd::prelude::*;

use crate::capsule::{
    bullet, capsule_text, evidence_section, lemma_evidence_is_shown, DEFAULT_MAX_FIELD_CHARS,
};
use crate::context::{ContextView, LinkContextState};
use crate::evidence::{
    holds_fact, push_evidence, record_views, with_record, EvidenceKind, EvidenceRecord,
    EvidenceView,
};
use crate::lists::{
    append_capped, append_unique, append_unique_values_with_char_limit, drop_oldest, keep_last,
    push_unique, with_unique,
};
use crate::sanitize::{lemma_sanitized_not_blank, sanitize_value, sanitized};
use crate::search::occurs;
use crate::store::MAX_RECORDED_TOOL_EVENTS;
use crate::text::{
    blank, contains_text, is_blank, is_white_space, lemma_trim_blank, owned, str_eq, texts, trim,
    trim_end, trim_start, trimmed,
};
use crate::tool_schema::{
    argument, tool, ArgumentType, ArgumentView, ToolArgument, ToolDefinition, ToolView, TypeView,
};

verus! {

pub const RECORD_LINK_CONTEXT_TOOL_NAME: &'static str = "record_link_context";

pub const RECORD_DESCRIPTION: &'static str = "Record a durable task fact into the Link context capsule. The capsule is re-injected every turn and survives context compaction and process restarts, so use this for load-bearing facts that must not be lost: decisions and their rationale, verified observations or test results, plan updates, and blockers.\nDo not use it for routine narration, speculation, or anything you have not verified. Record a fact once; re-recording the same summary is a no-op.";

pub const RECORD_KIND_DESCRIPTION: &'static str = "Required. `decision`: a choice you made and why. `observation`: a verified fact about the code or environment. `test_result`: an actually observed test/command outcome. `plan_update`: the next concrete action (also updates the capsule's next-action field). `blocker`: something that prevents progress (also added to open blockers).";

pub const RECORD_PATHS_DESCRIPTION: &'static str = "File paths this fact is about.";

pub const RECORD_SUMMARY_DESCRIPTION: &'static str = "Required. One or two sentences stating the fact. Keep exact identifiers (paths, symbols, commands, error text) verbatim so they remain searchable.";

/// What kind of fact the model records.
#[derive(Clone, Copy, Debug, PartialEq, Eq, Structural)]
pub enum RecordKind {
    Decision,
    Observation,
    TestResult,
    PlanUpdate,
    Blocker,
}

/// The arguments of the tool.
#[derive(Debug, PartialEq, Eq)]
pub struct RecordLinkContextArgs {
    pub kind: RecordKind,
    pub summary: String,
    pub related_paths: Option<Vec<String>>,
}

/// Why nothing was recorded.
#[derive(Clone, Copy, Debug, PartialEq, Eq, Structural)]
pub enum RecordError {
    EmptySummary,
}

impl RecordError {
    /// What the model is told.
    pub fn message(self) -> (r: &'static str)
        ensures
            r@ == "summary must not be empty"@,
    {
        "summary must not be empty"
    }
}

/// The kind of evidence that a recorded fact is.
pub open spec fn evidence_kind(kind: RecordKind) -> EvidenceKind {
    match kind {
        RecordKind::Decision => EvidenceKind::Decision,
        RecordKind::Observation => EvidenceKind::Observation,
        RecordKind::TestResult => EvidenceKind::TestResult,
        RecordKind::PlanUpdate => EvidenceKind::PlanUpdate,
        RecordKind::Blocker => EvidenceKind::Blocker,
    }
}

impl From<RecordKind> for EvidenceKind {
    fn from(kind: RecordKind) -> (r: Self) {
        match kind {
            RecordKind::Decision => EvidenceKind::Decision,
            RecordKind::Observation => EvidenceKind::Observation,
            RecordKind::TestResult => EvidenceKind::TestResult,
            RecordKind::PlanUpdate => EvidenceKind::PlanUpdate,
            RecordKind::Blocker => EvidenceKind::Blocker,
        }
    }
}

impl vstd::std_specs::convert::FromSpecImpl<RecordKind> for EvidenceKind {
    open spec fn obeys_from_spec() -> bool {
        true
    }

    open spec fn from_spec(kind: RecordKind) -> EvidenceKind {
        evidence_kind(kind)
    }
}

/// The reference from a record to the call that made it.
pub open spec fn call_ref(turn_id: Seq<char>, call_id: Seq<char>) -> Seq<char> {
    "turn "@ + turn_id + ", call "@ + call_id
}

/// The paths of a fact, none where none were given.
pub open spec fn paths_of(args: RecordLinkContextArgs) -> Seq<Seq<char>> {
    match args.related_paths {
        Some(paths) => texts(paths@),
        None => Seq::empty(),
    }
}

/// The record that a call makes.
pub open spec fn record_of(
    args: RecordLinkContextArgs,
    turn_id: Seq<char>,
    call_id: Seq<char>,
    created_at_ms: Option<i64>,
) -> EvidenceView {
    EvidenceView {
        source_ref: Some(call_ref(turn_id, call_id)),
        related_paths: paths_of(args),
        ..EvidenceView::reported(evidence_kind(args.kind), trim(args.summary@), created_at_ms)
    }
}

/// The line of evidence that a record is shown as.
pub open spec fn evidence_line(record: EvidenceView) -> Option<Seq<char>> {
    sanitized(record.rendered(), DEFAULT_MAX_FIELD_CHARS as nat)
}

/// Whether the evidence holds the line of a record.
pub open spec fn is_shown(evidence: Seq<Seq<char>>, record: EvidenceView) -> bool {
    evidence_line(record) matches Some(line) && evidence.contains(line)
}

/// Whether a record holds a fact of this kind and summary.
pub open spec fn is_fact(record: EvidenceView, kind: EvidenceKind, summary: Seq<char>) -> bool {
    record.kind == kind && record.summary == summary
}

/// Whether a fact of this kind and summary is recorded, and the evidence shows
/// it.
pub open spec fn is_recorded(
    evidence: Seq<Seq<char>>,
    records: Seq<EvidenceView>,
    kind: EvidenceKind,
    summary: Seq<char>,
) -> bool {
    exists|i: int|
        0 <= i < records.len() && is_fact(#[trigger] records[i], kind, summary) && is_shown(
            evidence,
            records[i],
        )
}

/// The records without those of a fact.
pub open spec fn without_fact(
    records: Seq<EvidenceView>,
    kind: EvidenceKind,
    summary: Seq<char>,
) -> Seq<EvidenceView>
    decreases records.len(),
{
    if records.len() == 0 {
        Seq::empty()
    } else {
        let before = without_fact(records.drop_last(), kind, summary);
        if is_fact(records.last(), kind, summary) {
            before
        } else {
            before.push(records.last())
        }
    }
}

/// The records after a call: a fact that is recorded is not recorded again,
/// and one that the evidence no longer shows is recorded anew.
pub open spec fn records_after(
    evidence: Seq<Seq<char>>,
    records: Seq<EvidenceView>,
    record: EvidenceView,
) -> Seq<EvidenceView> {
    if is_recorded(evidence, records, record.kind, record.summary) {
        records
    } else {
        with_record(
            without_fact(records, record.kind, record.summary),
            record,
            MAX_RECORDED_TOOL_EVENTS as nat,
        )
    }
}

/// What else of the capsule a fact stands in: a plan update is the next
/// action, a blocker is open.
pub open spec fn plan_after(
    facts: ContextView,
    kind: RecordKind,
    summary: Seq<char>,
) -> ContextView {
    match kind {
        RecordKind::PlanUpdate => ContextView { next_action: Some(summary), ..facts },
        RecordKind::Blocker => ContextView {
            open_blockers: with_unique(facts.open_blockers, summary),
            ..facts
        },
        _ => facts,
    }
}

/// The facts of the capsule after a call: a fact that is not recorded yet is
/// one more line of evidence, cleaned, and cut only where the capsule would cut
/// it.
pub open spec fn facts_after(
    facts: ContextView,
    records: Seq<EvidenceView>,
    kind: RecordKind,
    record: EvidenceView,
) -> ContextView {
    let after = plan_after(facts, kind, record.summary);
    if is_recorded(facts.verified_evidence, records, record.kind, record.summary) {
        after
    } else {
        ContextView {
            verified_evidence: append_capped(
                keep_last(facts.verified_evidence, MAX_RECORDED_TOOL_EVENTS as nat),
                seq![record.rendered()],
                Some(MAX_RECORDED_TOOL_EVENTS),
                DEFAULT_MAX_FIELD_CHARS as nat,
            ),
            ..after
        }
    }
}

fn already_recorded(
    evidence: &Vec<String>,
    records: &Vec<EvidenceRecord>,
    kind: EvidenceKind,
    summary: &str,
) -> (r: bool)
    ensures
        r == is_recorded(texts(evidence@), record_views(records@), kind, summary@),
{
    let ghost all = record_views(records@);
    let mut i: usize = 0;
    while i < records.len()
        invariant
            i <= records.len(),
            all == record_views(records@),
            forall|j: int|
                0 <= j < i ==> !(is_fact(#[trigger] all[j], kind, summary@) && is_shown(
                    texts(evidence@),
                    all[j],
                )),
        decreases records.len() - i,
    {
        assert(all[i as int] == records@[i as int]@);
        if records[i].kind == kind && str_eq(records[i].summary.as_str(), summary) {
            match sanitize_value(records[i].render().as_str(), DEFAULT_MAX_FIELD_CHARS) {
                Some(line) => if contains_text(evidence, line.as_str()) {
                    assert(is_fact(all[i as int], kind, summary@));
                    return true;
                },
                None => {},
            }
        }
        i += 1;
    }
    false
}

fn forget_fact(records: &mut Vec<EvidenceRecord>, kind: EvidenceKind, summary: &str)
    ensures
        record_views(final(records)@) == without_fact(
            record_views(old(records)@),
            kind,
            summary@,
        ),
{
    let ghost all = record_views(records@);
    let mut kept: Vec<EvidenceRecord> = Vec::new();
    let mut i: usize = 0;
    assert(all.take(0) =~= Seq::empty());
    assert(record_views(kept@) =~= Seq::empty());
    while i < records.len()
        invariant
            i <= records.len(),
            all == record_views(records@),
            record_views(kept@) == without_fact(all.take(i as int), kind, summary@),
        decreases records.len() - i,
    {
        assert(all.take(i + 1).drop_last() =~= all.take(i as int));
        assert(all.take(i + 1).last() == records@[i as int]@);
        if !(records[i].kind == kind && str_eq(records[i].summary.as_str(), summary)) {
            let ghost before = kept@;
            let record = records[i].clone();
            kept.push(record);
            assert(record_views(kept@) =~= record_views(before).push(record@));
        }
        i += 1;
    }
    assert(all.take(i as int) =~= all);
    *records = kept;
}

/// Records a fact that the model reports.
pub fn record_link_context(
    state: &mut LinkContextState,
    records: &mut Vec<EvidenceRecord>,
    args: RecordLinkContextArgs,
    turn_id: &str,
    call_id: &str,
    created_at_ms: Option<i64>,
) -> (r: Result<(), RecordError>)
    ensures
        r is Err <==> is_blank(args.summary@),
        r is Err ==> *final(state) == *old(state) && *final(records) == *old(records),
        r is Ok ==> final(state)@ == facts_after(
            old(state)@,
            record_views(old(records)@),
            args.kind,
            record_of(args, turn_id@, call_id@, created_at_ms),
        ),
        r is Ok ==> record_views(final(records)@) == records_after(
            old(state)@.verified_evidence,
            record_views(old(records)@),
            record_of(args, turn_id@, call_id@, created_at_ms),
        ),
{
    if blank(args.summary.as_str()) {
        return Err(RecordError::EmptySummary);
    }
    let summary = trimmed(args.summary.as_str());
    match args.kind {
        RecordKind::PlanUpdate => {
            state.next_action = Some(summary.clone());
        },
        RecordKind::Blocker => {
            push_unique(&mut state.open_blockers, summary.as_str());
        },
        RecordKind::Decision | RecordKind::Observation | RecordKind::TestResult => {},
    }
    let kind: EvidenceKind = EvidenceKind::from(args.kind);
    if already_recorded(&state.verified_evidence, &*records, kind, summary.as_str()) {
        return Ok(());
    }
    let mut source_ref = owned("turn ");
    source_ref.append(turn_id);
    source_ref.append(", call ");
    source_ref.append(call_id);
    let paths: Vec<String> = match args.related_paths {
        Some(paths) => paths,
        None => Vec::new(),
    };
    proof {
        if args.related_paths is None {
            assert(texts(paths@) =~= Seq::empty());
        }
    }
    forget_fact(records, kind, summary.as_str());
    let record = EvidenceRecord::model_at(kind, summary, created_at_ms).with_source_ref(
        source_ref,
    ).with_related_paths(paths);
    let ghost before = state.verified_evidence@;
    drop_oldest(&mut state.verified_evidence, MAX_RECORDED_TOOL_EVENTS);
    assert(texts(state.verified_evidence@) =~= keep_last(
        texts(before),
        MAX_RECORDED_TOOL_EVENTS as nat,
    ));
    let lines: Vec<String> = vec![record.render()];
    assert(texts(lines@) =~= seq![record@.rendered()]);
    append_unique_values_with_char_limit(
        &mut state.verified_evidence,
        lines.as_slice(),
        Some(MAX_RECORDED_TOOL_EVENTS),
        DEFAULT_MAX_FIELD_CHARS,
    );
    push_evidence(records, record, MAX_RECORDED_TOOL_EVENTS);
    Ok(())
}

/// The tool that records a fact.
pub open spec fn record_tool() -> ToolView {
    ToolView {
        name: RECORD_LINK_CONTEXT_TOOL_NAME@,
        description: RECORD_DESCRIPTION@,
        strict: false,
        arguments: seq![
            ArgumentView {
                name: "kind"@,
                argument_type: TypeView::TextEnum(
                    seq![
                        "decision"@,
                        "observation"@,
                        "test_result"@,
                        "plan_update"@,
                        "blocker"@,
                    ],
                ),
                description: RECORD_KIND_DESCRIPTION@,
            },
            ArgumentView {
                name: "related_paths"@,
                argument_type: TypeView::TextList,
                description: RECORD_PATHS_DESCRIPTION@,
            },
            ArgumentView {
                name: "summary"@,
                argument_type: TypeView::Text,
                description: RECORD_SUMMARY_DESCRIPTION@,
            },
        ],
        required: seq!["kind"@, "summary"@],
        additional_properties: false,
    }
}

/// The tool that records a fact.
pub fn create_record_link_context_tool() -> (r: ToolDefinition)
    ensures
        r@ == record_tool(),
{
    let kinds: Vec<String> = vec![
        owned("decision"),
        owned("observation"),
        owned("test_result"),
        owned("plan_update"),
        owned("blocker"),
    ];
    assert(texts(kinds@) =~= seq![
        "decision"@,
        "observation"@,
        "test_result"@,
        "plan_update"@,
        "blocker"@,
    ]);
    let arguments: Vec<ToolArgument> = vec![
        argument("kind", ArgumentType::TextEnum(kinds), RECORD_KIND_DESCRIPTION),
        argument("related_paths", ArgumentType::TextList, RECORD_PATHS_DESCRIPTION),
        argument("summary", ArgumentType::Text, RECORD_SUMMARY_DESCRIPTION),
    ];
    let required: Vec<String> = vec![owned("kind"), owned("summary")];
    let r = tool(RECORD_LINK_CONTEXT_TOOL_NAME, RECORD_DESCRIPTION, arguments, required);
    assert(r@.required =~= record_tool().required);
    assert(r@.arguments =~= record_tool().arguments);
    r
}

proof fn lemma_without_fact(records: Seq<EvidenceView>, kind: EvidenceKind, summary: Seq<char>)
    ensures
        forall|i: int|
            0 <= i < without_fact(records, kind, summary).len() ==> !is_fact(
                #[trigger] without_fact(records, kind, summary)[i],
                kind,
                summary,
            ),
    decreases records.len(),
{
    if records.len() > 0 {
        lemma_without_fact(records.drop_last(), kind, summary);
        let before = without_fact(records.drop_last(), kind, summary);
        let after = without_fact(records, kind, summary);
        assert forall|i: int| 0 <= i < after.len() implies !is_fact(
            #[trigger] after[i],
            kind,
            summary,
        ) by {
            if i < before.len() {
                assert(after[i] == before[i]);
            }
        }
    }
}

/// A rendered record is never blank, so that there is a line of it.
proof fn lemma_rendered_not_blank(record: EvidenceView)
    ensures
        evidence_line(record) is Some,
{
    reveal_strlit("[");
    let text = record.rendered();
    assert(text[0] == '[');
    assert(!is_white_space(text[0]));
}

/// A fact that was not recorded is the last record, and the evidence holds its
/// line.
proof fn lemma_new_fact(
    facts: ContextView,
    records: Seq<EvidenceView>,
    kind: RecordKind,
    record: EvidenceView,
)
    requires
        !is_blank(record.summary),
        !is_recorded(facts.verified_evidence, records, record.kind, record.summary),
    ensures
        records_after(facts.verified_evidence, records, record).len() > 0,
        records_after(facts.verified_evidence, records, record).last() == record,
        is_shown(facts_after(facts, records, kind, record).verified_evidence, record),
{
    let rest = without_fact(records, record.kind, record.summary);
    lemma_without_fact(records, record.kind, record.summary);
    assert(!holds_fact(rest, record.identity())) by {
        if holds_fact(rest, record.identity()) {
            let i = choose|i: int|
                0 <= i < rest.len() && (#[trigger] rest[i]).identity() == record.identity();
            assert(is_fact(rest[i], record.kind, record.summary));
        }
    }
    lemma_rendered_not_blank(record);
    let line = evidence_line(record)->0;
    let max = DEFAULT_MAX_FIELD_CHARS as nat;
    let bound = MAX_RECORDED_TOOL_EVENTS as nat;
    let values = keep_last(facts.verified_evidence, bound);
    let added = seq![record.rendered()];
    assert(added.drop_last() =~= Seq::empty());
    assert(added.last() == record.rendered());
    assert(append_unique(values, added.drop_last(), max) == values);
    assert(append_unique(values, added, max) == with_unique(values, line));
    let after = append_capped(values, added, Some(MAX_RECORDED_TOOL_EVENTS), max);
    if values.contains(line) {
        assert(after == values);
    } else {
        assert(after.last() == line);
        assert(after[after.len() - 1] == line);
    }
    assert(facts_after(facts, records, kind, record).verified_evidence == after);
}

/// After a call the fact is recorded and shown, whatever was there before.
pub proof fn lemma_fact_is_recorded(
    facts: ContextView,
    records: Seq<EvidenceView>,
    args: RecordLinkContextArgs,
    call: (Seq<char>, Seq<char>, Option<i64>),
)
    requires
        !is_blank(args.summary@),
    ensures
        is_recorded(
            facts_after(
                facts,
                records,
                args.kind,
                record_of(args, call.0, call.1, call.2),
            ).verified_evidence,
            records_after(
                facts.verified_evidence,
                records,
                record_of(args, call.0, call.1, call.2),
            ),
            evidence_kind(args.kind),
            trim(args.summary@),
        ),
{
    let record = record_of(args, call.0, call.1, call.2);
    lemma_trim_keeps(args.summary@);
    if !is_recorded(facts.verified_evidence, records, record.kind, record.summary) {
        lemma_new_fact(facts, records, args.kind, record);
        let after = records_after(facts.verified_evidence, records, record);
        assert(is_fact(after[after.len() - 1], record.kind, record.summary));
    }
}

/// Whether a capsule shows the line of a record, in its section of evidence.
pub open spec fn capsule_shows(facts: ContextView, record: EvidenceView, max_chars: nat) -> bool {
    &&& evidence_line(record) is Some
    &&& sanitized(evidence_line(record)->0, max_chars) is Some
    &&& occurs(
        evidence_section(facts, max_chars),
        bullet(sanitized(evidence_line(record)->0, max_chars)->0),
    )
    &&& occurs(
        capsule_text(facts, max_chars),
        bullet(sanitized(evidence_line(record)->0, max_chars)->0),
    )
}

proof fn lemma_shown_in_capsule(facts: ContextView, record: EvidenceView, max_chars: nat)
    requires
        is_shown(facts.verified_evidence, record),
    ensures
        capsule_shows(facts, record, max_chars),
        !facts.is_blank(),
{
    let line = evidence_line(record)->0;
    lemma_sanitized_not_blank(record.rendered(), DEFAULT_MAX_FIELD_CHARS as nat);
    lemma_evidence_is_shown(facts, line, max_chars);
}

/// After a call the capsule shows the fact among its evidence: by the record
/// of this call where it is new, and by the earlier one where it is not.
pub proof fn lemma_recorded_fact_is_in_capsule(
    facts: ContextView,
    records: Seq<EvidenceView>,
    args: RecordLinkContextArgs,
    call: (Seq<char>, Seq<char>, Option<i64>),
    max_chars: nat,
)
    requires
        !is_blank(args.summary@),
    ensures
        ({
            let record = record_of(args, call.0, call.1, call.2);
            let after = facts_after(facts, records, args.kind, record);
            let kept = records_after(facts.verified_evidence, records, record);
            &&& !after.is_blank()
            &&& !is_recorded(facts.verified_evidence, records, record.kind, record.summary)
                ==> capsule_shows(after, record, max_chars)
            &&& exists|i: int|
                0 <= i < kept.len() && is_fact(
                    #[trigger] kept[i],
                    record.kind,
                    record.summary,
                ) && capsule_shows(after, kept[i], max_chars)
        }),
{
    let record = record_of(args, call.0, call.1, call.2);
    let after = facts_after(facts, records, args.kind, record);
    let kept = records_after(facts.verified_evidence, records, record);
    lemma_fact_is_recorded(facts, records, args, call);
    let i = choose|i: int|
        0 <= i < kept.len() && is_fact(#[trigger] kept[i], record.kind, record.summary) && is_shown(
            after.verified_evidence,
            kept[i],
        );
    lemma_shown_in_capsule(after, kept[i], max_chars);
    if !is_recorded(facts.verified_evidence, records, record.kind, record.summary) {
        lemma_trim_keeps(args.summary@);
        lemma_new_fact(facts, records, args.kind, record);
        lemma_shown_in_capsule(after, record, max_chars);
    }
}

/// Recording the same fact twice in a row is the same as recording it once,
/// whichever calls record it, when, and whatever was there before.
pub proof fn lemma_record_twice(
    facts: ContextView,
    records: Seq<EvidenceView>,
    args: RecordLinkContextArgs,
    again: RecordLinkContextArgs,
    first: (Seq<char>, Seq<char>, Option<i64>),
    second: (Seq<char>, Seq<char>, Option<i64>),
)
    requires
        !is_blank(args.summary@),
        args.kind == again.kind,
        trim(args.summary@) == trim(again.summary@),
    ensures
        ({
            let record = record_of(args, first.0, first.1, first.2);
            let repeated = record_of(again, second.0, second.1, second.2);
            let facts_once = facts_after(facts, records, args.kind, record);
            let records_once = records_after(facts.verified_evidence, records, record);
            &&& facts_after(facts_once, records_once, again.kind, repeated) == facts_once
            &&& records_after(facts_once.verified_evidence, records_once, repeated) == records_once
        }),
{
    let record = record_of(args, first.0, first.1, first.2);
    let repeated = record_of(again, second.0, second.1, second.2);
    let once = facts_after(facts, records, args.kind, record);
    lemma_fact_is_recorded(facts, records, args, first);
    if args.kind is Blocker {
        let open = facts.open_blockers;
        let after = with_unique(open, record.summary);
        if !open.contains(record.summary) {
            assert(after[after.len() - 1] == record.summary);
        }
        assert(once.open_blockers == after);
    }
    assert(plan_after(once, again.kind, repeated.summary) == once);
}

proof fn lemma_trim_keeps(s: Seq<char>)
    requires
        !is_blank(s),
    ensures
        !is_blank(trim(s)),
{
    lemma_trim_blank(s);
    let front = trim_start(s);
    let r = trim_end(front);
    assert(trim(s) == r);
    assert(!is_white_space(r.last())) by {
        lemma_trim_end_last(front);
    }
    assert(!is_white_space(r[r.len() - 1]));
}

proof fn lemma_trim_end_last(s: Seq<char>)
    ensures
        trim_end(s).len() > 0 ==> !is_white_space(trim_end(s).last()),
    decreases s.len(),
{
    if s.len() > 0 && is_white_space(s.last()) {
        lemma_trim_end_last(s.drop_last());
    }
}

} // verus!
