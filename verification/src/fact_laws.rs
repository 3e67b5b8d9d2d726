//! What holds of a fact that the model records: where it goes, and what else
//! changes.

use vstd::prelude::*;

use crate::choices::{is_choice, lemma_choice_step, lemma_no_choice, lemma_same_choice};
use crate::context::ContextView;
use crate::evidence::{holds_fact, EvidenceKind, EvidenceView};
use crate::lists::append_capped;
use crate::record_tool::{
    facts_after, is_recorded, record_tool, records_after, without_fact, RecordKind,
};
use crate::job_tools::{cancel_tool, observe_tool};
use crate::sanitize::sanitized;
use crate::text::is_blank;
use crate::tool_schema::{ToolView, TypeView};

verus! {

/// A plan update becomes the next action and a blocker stands among the open
/// ones, each once; nothing but these and the evidence ever changes.
pub proof fn lemma_fact_takes_its_place(
    facts: ContextView,
    records: Seq<EvidenceView>,
    kind: RecordKind,
    record: EvidenceView,
)
    ensures
        ({
            let after = facts_after(facts, records, kind, record);
            &&& after.active_goal == facts.active_goal
            &&& after.success_criteria == facts.success_criteria
            &&& after.current_progress == facts.current_progress
            &&& after.files_touched == facts.files_touched
            &&& after.active_background_jobs == facts.active_background_jobs
            &&& kind is PlanUpdate ==> after.next_action == Some(record.summary)
            &&& !(kind is PlanUpdate) ==> after.next_action == facts.next_action
            &&& !(kind is Blocker) ==> after.open_blockers == facts.open_blockers
            &&& kind is Blocker && facts.open_blockers.contains(record.summary)
                ==> after.open_blockers == facts.open_blockers
            &&& kind is Blocker && !facts.open_blockers.contains(record.summary)
                ==> after.open_blockers == facts.open_blockers.push(record.summary)
        }),
{
}

/// A fact that is recorded leaves the evidence and the records as they are. One
/// that is not becomes the last line of evidence, behind at most fifteen
/// others, unless the evidence has that line already.
pub proof fn lemma_new_fact_is_last_evidence(
    facts: ContextView,
    records: Seq<EvidenceView>,
    kind: RecordKind,
    record: EvidenceView,
)
    ensures
        ({
            let evidence = facts.verified_evidence;
            let after = facts_after(facts, records, kind, record).verified_evidence;
            let known = is_recorded(evidence, records, record.kind, record.summary);
            let kept = if evidence.len() > 16 {
                evidence.skip(evidence.len() - 16)
            } else {
                evidence
            };
            &&& known ==> after == evidence && records_after(evidence, records, record) == records
            &&& !known ==> (sanitized(record.rendered(), 1200) matches Some(line) ==> {
                &&& kept.contains(line) ==> after == kept
                &&& !kept.contains(line) && kept.len() < 16 ==> after == kept.push(line)
                &&& !kept.contains(line) && kept.len() == 16 ==> after == kept.skip(1).push(line)
            })
        }),
{
    let evidence = facts.verified_evidence;
    let kept = if evidence.len() > 16 {
        evidence.skip(evidence.len() - 16)
    } else {
        evidence
    };
    let additions = seq![record.rendered()];
    assert(additions.drop_last() =~= Seq::empty());
    assert(additions.last() == record.rendered());
    reveal_with_fuel(crate::lists::append_unique, 3);
    let after = append_capped(kept, additions, Some(16), 1200);
    if sanitized(record.rendered(), 1200) is Some {
        let line = sanitized(record.rendered(), 1200)->0;
        if !kept.contains(line) && kept.len() == 16 {
            assert(kept.push(line).skip(1) =~= kept.skip(1).push(line));
        }
    }
}

/// Whether the chosen positions are those of the records of other facts.
pub open spec fn chooses_other_facts(
    at: Seq<int>,
    records: Seq<EvidenceView>,
    kind: EvidenceKind,
    summary: Seq<char>,
) -> bool {
    is_choice(
        at,
        records.len() as int,
        |i: int| !(records[i].kind == kind && records[i].summary == summary),
    )
}

proof fn lemma_other_places(
    records: Seq<EvidenceView>,
    kind: EvidenceKind,
    summary: Seq<char>,
) -> (at: Seq<int>)
    ensures
        chooses_other_facts(at, records, kind, summary),
        without_fact(records, kind, summary) == Seq::new(at.len(), |j: int| records[at[j]]),
    decreases records.len(),
{
    let chosen = |i: int| !(records[i].kind == kind && records[i].summary == summary);
    if records.len() == 0 {
        lemma_no_choice(chosen);
        let at = Seq::<int>::empty();
        assert(without_fact(records, kind, summary) =~= Seq::new(at.len(), |j: int| records[at[j]]));
        at
    } else {
        let rest = records.drop_last();
        let n = rest.len() as int;
        let at = lemma_other_places(rest, kind, summary);
        let known = |i: int| !(rest[i].kind == kind && rest[i].summary == summary);
        assert forall|i: int| 0 <= i < n implies #[trigger] known(i) == chosen(i) by {
            assert(rest[i] == records[i]);
        }
        lemma_same_choice(at, n, known, chosen);
        lemma_choice_step(at, n, chosen);
        let more = if chosen(n) {
            at.push(n)
        } else {
            at
        };
        assert(without_fact(records, kind, summary) =~= Seq::new(
            more.len(),
            |j: int| records[more[j]],
        ));
        more
    }
}

/// A fact that is recorded anew leaves its old record and stands last; the
/// records of other facts stay in order, and the last sixteen are kept.
pub proof fn lemma_new_record_is_last(
    evidence: Seq<Seq<char>>,
    records: Seq<EvidenceView>,
    record: EvidenceView,
)
    requires
        !is_recorded(evidence, records, record.kind, record.summary),
        !is_blank(record.summary),
    ensures
        exists|at: Seq<int>|
            {
                let others = Seq::new(at.len(), |j: int| records[at[j]]);
                let after = records_after(evidence, records, record);
                &&& #[trigger] chooses_other_facts(at, records, record.kind, record.summary)
                &&& !holds_fact(others, record.identity()) && others.len() < 16 ==> after
                    == others.push(record)
                &&& !holds_fact(others, record.identity()) && others.len() >= 16 ==> after
                    == others.skip(others.len() - 15).push(record)
            },
{
    let at = lemma_other_places(records, record.kind, record.summary);
    let others = Seq::new(at.len(), |j: int| records[at[j]]);
    let all = others.push(record);
    if others.len() >= 16 {
        assert(all.skip(all.len() - 16) =~= others.skip(others.len() - 15).push(record));
    }
}

/// Whether a tool takes an argument.
pub open spec fn takes(tool: ToolView, name: Seq<char>, argument_type: TypeView) -> bool {
    exists|i: int|
        0 <= i < tool.arguments.len() && (#[trigger] tool.arguments[i]).name == name
            && tool.arguments[i].argument_type == argument_type
}

/// The tools take the arguments that their handlers read, ask for those without
/// which nothing can be done, and take no others.
pub proof fn lemma_tools_take_what_is_read()
    ensures
        observe_tool().name == "job_observe"@,
        takes(
            observe_tool(),
            "action"@,
            TypeView::TextEnum(seq!["list"@, "status"@, "tail"@, "read"@, "wait"@]),
        ),
        takes(observe_tool(), "session_id"@, TypeView::Integer),
        takes(observe_tool(), "tail_lines"@, TypeView::Integer),
        takes(observe_tool(), "offset_bytes"@, TypeView::Integer),
        takes(observe_tool(), "limit_bytes"@, TypeView::Integer),
        takes(observe_tool(), "timeout_ms"@, TypeView::Integer),
        observe_tool().arguments.len() == 6,
        observe_tool().required == seq!["action"@],
        !observe_tool().additional_properties,
        cancel_tool().name == "job_cancel"@,
        takes(cancel_tool(), "session_id"@, TypeView::Integer),
        cancel_tool().arguments.len() == 1,
        cancel_tool().required == seq!["session_id"@],
        !cancel_tool().additional_properties,
        record_tool().name == "record_link_context"@,
        takes(
            record_tool(),
            "kind"@,
            TypeView::TextEnum(
                seq!["decision"@, "observation"@, "test_result"@, "plan_update"@, "blocker"@],
            ),
        ),
        takes(record_tool(), "related_paths"@, TypeView::TextList),
        takes(record_tool(), "summary"@, TypeView::Text),
        record_tool().arguments.len() == 3,
        record_tool().required == seq!["kind"@, "summary"@],
        !record_tool().additional_properties,
{
    let o = observe_tool().arguments;
    assert(o[0].name == "action"@ && o[1].name == "limit_bytes"@ && o[2].name == "offset_bytes"@);
    assert(o[3].name == "session_id"@ && o[4].name == "tail_lines"@ && o[5].name == "timeout_ms"@);
    assert(cancel_tool().arguments[0].name == "session_id"@);
    let r = record_tool().arguments;
    assert(r[0].name == "kind"@ && r[1].name == "related_paths"@ && r[2].name == "summary"@);
}

} // verus!
