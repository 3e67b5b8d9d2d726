//! What holds of what a store records: which facts change on a tool call, a
//! command, a trigger or a patch, and what is told of each.

use vstd::prelude::*;

use crate::context::ContextView;
use crate::decimal::{decimal, decimal_int};
use crate::evidence::{
    holds_fact, with_record, EvidenceConfidence, EvidenceKind, EvidenceSource, EvidenceView,
};
use crate::exec_events::{
    ExecBackgroundTriggerEvent, ExecCommandBeginEvent, ExecCommandEndEvent, ExecCommandStatus,
};
use crate::exit_report::{end_output, exit_event, ProcessEnd};
use crate::file_changes::{
    change_paths, patch_evidence, touched_paths, FileChange, FileChangeEntry, FileChangeItem,
    PatchApplyStatus,
};
use crate::jobs::{begun_job, JobView};
use crate::list_laws::{extends, lemma_append_extends};
use crate::lists::{append_capped, append_unique, without};
use crate::order::{ascending, lemma_sorted_unique};
use crate::record_tool::{record_of, RecordKind, RecordLinkContextArgs};
use crate::sanitize::{sanitized, truncated};
use crate::split::join;
use crate::store::{
    exit_evidence, trigger_evidence, with_evidence, with_job_line, EventMsg, StoreView,
};
use crate::text::{is_blank, texts, trim};
use crate::tool_finish::{
    finished_job, tool_finish_text, ToolCallOutcome, ToolCallSource, ToolFinishInput,
};

verus! {

/// Whether a list is another with the new ones of some additions behind it, of
/// which the last `max_len` are left.
pub open spec fn extends_within(
    after: Seq<Seq<char>>,
    values: Seq<Seq<char>>,
    additions: Seq<Seq<char>>,
    max_len: int,
    max_chars: nat,
) -> bool {
    exists|all: Seq<Seq<char>>|
        {
            &&& #[trigger] extends(all, values, additions, max_chars)
            &&& all.len() <= max_len ==> after == all
            &&& all.len() > max_len ==> after == all.skip(all.len() - max_len)
        }
}

proof fn lemma_capped_extends(
    values: Seq<Seq<char>>,
    additions: Seq<Seq<char>>,
    max_len: usize,
    max_chars: nat,
)
    ensures
        extends_within(
            append_capped(values, additions, Some(max_len), max_chars),
            values,
            additions,
            max_len as int,
            max_chars,
        ),
{
    lemma_append_extends(values, additions, max_chars);
    let all = append_unique(values, additions, max_chars);
    assert(extends(all, values, additions, max_chars));
}

/// Whether nothing but the evidence of a thread changes, which gets one more
/// line, of at most nine hundred characters; the last sixteen lines stay.
pub open spec fn adds_evidence(after: ContextView, before: ContextView, line: Seq<char>) -> bool {
    &&& extends_within(after.verified_evidence, before.verified_evidence, seq![line], 16, 900)
    &&& after.active_goal == before.active_goal
    &&& after.success_criteria == before.success_criteria
    &&& after.current_progress == before.current_progress
    &&& after.next_action == before.next_action
    &&& after.files_touched == before.files_touched
    &&& after.active_background_jobs == before.active_background_jobs
    &&& after.open_blockers == before.open_blockers
}

/// A line of evidence is put behind the others, and nothing else changes.
pub proof fn lemma_evidence_is_added(state: ContextView, line: Seq<char>)
    ensures
        adds_evidence(with_evidence(state, line), state, line),
{
    lemma_capped_extends(state.verified_evidence, seq![line], 16, 900);
}

/// The line of a job that was known is replaced, and one of a new job is put
/// behind the others; nothing else changes.
pub proof fn lemma_job_line_is_replaced(
    state: ContextView,
    before: Option<Seq<char>>,
    summary: Seq<char>,
)
    ensures
        ({
            let after = with_job_line(state, before, summary);
            let kept = if before is Some {
                without(state.active_background_jobs, before->0)
            } else {
                state.active_background_jobs
            };
            &&& after.active_background_jobs.contains(summary)
            &&& kept.contains(summary) ==> after.active_background_jobs == kept
            &&& !kept.contains(summary) ==> after.active_background_jobs == kept.push(summary)
            &&& after == (ContextView {
                active_background_jobs: after.active_background_jobs,
                ..state
            })
        }),
{
    let after = with_job_line(state, before, summary);
    let kept = if before is Some {
        without(state.active_background_jobs, before->0)
    } else {
        state.active_background_jobs
    };
    if !kept.contains(summary) {
        assert(after.active_background_jobs[kept.len() as int] == summary);
    }
}

/// A command is a background job exactly where it has a session and a
/// description or triggers, and the job is what the command was started with.
pub proof fn lemma_background_command_is_a_job(event: ExecCommandBeginEvent)
    ensures
        begun_job(event) is Some <==> event.process_id is Some && (
        event.background_description is Some || event.background_triggers@.len() > 0),
        begun_job(event) matches Some(job) ==> ({
            &&& job.process_id == event.process_id->0@
            &&& event.background_description matches Some(text) ==> job.description == text@
            &&& event.background_description is None ==> job.description
                == "(no description recorded)"@
            &&& job.triggers == texts(event.background_triggers@)
            &&& job.command == Some(join(texts(event.command@), " "@))
            &&& job.cwd == Some(event.cwd@)
            &&& job.started_at_ms == Some(event.started_at_ms)
            &&& job.log_path is None
        }),
{
}

/// A job that is known keeps what it tells, and takes from another of its
/// session what it lacks; of the triggers, those that are new.
pub proof fn lemma_job_is_completed(job: JobView, other: JobView)
    ensures
        ({
            let after = job.merged(other);
            &&& after.process_id == job.process_id
            &&& job.description == "(no description recorded)"@ ==> after.description
                == other.description
            &&& job.description != "(no description recorded)"@ ==> after.description
                == job.description
            &&& extends(after.triggers, job.triggers, other.triggers, usize::MAX as nat)
            &&& job.command is Some ==> after.command == job.command
            &&& job.command is None ==> after.command == other.command
            &&& job.cwd is Some ==> after.cwd == job.cwd
            &&& job.cwd is None ==> after.cwd == other.cwd
            &&& job.started_at_ms is Some ==> after.started_at_ms == job.started_at_ms
            &&& job.started_at_ms is None ==> after.started_at_ms == other.started_at_ms
            &&& job.log_path is Some ==> after.log_path == job.log_path
            &&& job.log_path is None ==> after.log_path == other.log_path
        }),
{
    lemma_append_extends(job.triggers, other.triggers, usize::MAX as nat);
}

/// What is shown of an optional text behind a label.
pub open spec fn part(label: Seq<char>, value: Option<Seq<char>>) -> Seq<char> {
    if value is Some {
        label + value->0
    } else {
        Seq::empty()
    }
}

/// The line of a job tells its session, its description and, as far as they are
/// known, its command, its directory, its log and its triggers.
pub proof fn lemma_job_summary(job: JobView)
    ensures
        job.summary() == truncated(
            "exec session "@ + job.process_id + " running: "@ + job.description + part(
                "; command: "@,
                job.command,
            ) + part("; cwd: "@, job.cwd) + part("; log: "@, job.log_path) + part(
                "; triggers: "@,
                if job.triggers.len() == 0 {
                    None
                } else {
                    Some(join(job.triggers, ", "@))
                },
            ),
            900,
        ),
{
}

/// A command that starts in the background is recorded as the job of its
/// session, listed under its line, and told among the evidence; a command that
/// is no background job changes nothing.
pub proof fn lemma_begun_command_is_recorded(store: StoreView, event: ExecCommandBeginEvent)
    ensures
        begun_job(event) is None ==> store.command_begun(event) == store,
        begun_job(event) matches Some(job) ==> ({
            let after = store.command_begun(event);
            let id = job.process_id;
            &&& after.jobs.dom() == store.jobs.dom().insert(id)
            &&& forall|other: Seq<char>|
                other != id && #[trigger] store.jobs.dom().contains(other) ==> after.jobs[other]
                    == store.jobs[other]
            &&& !store.jobs.dom().contains(id) ==> after.jobs[id] == job
            &&& store.jobs.dom().contains(id) ==> after.jobs[id] == store.jobs[id].merged(job)
            &&& after.state.active_background_jobs.contains(after.jobs[id].summary())
            &&& extends_within(
                after.state.verified_evidence,
                store.state.verified_evidence,
                seq!["Native background exec registered: "@ + after.jobs[id].summary()],
                16,
                900,
            )
            &&& after.keys == store.keys
            &&& after.reports == store.reports
            &&& after.state.files_touched == store.state.files_touched
            &&& after.state.next_action == store.state.next_action
            &&& after.state.active_goal == store.state.active_goal
            &&& after.state.open_blockers == store.state.open_blockers
        }),
{
    match begun_job(event) {
        Some(job) => {
            let after = store.command_begun(event);
            let id = job.process_id;
            let summary = after.jobs[id].summary();
            let before = crate::job_table::summary_before(store.jobs, id);
            lemma_job_line_is_replaced(store.state, before, summary);
            lemma_evidence_is_added(
                with_job_line(store.state, before, summary),
                "Native background exec registered: "@ + summary,
            );
            assert(after.jobs.dom() =~= store.jobs.dom().insert(id));
        },
        None => {},
    }
}

/// A tool call is told among the evidence. One that started a background job
/// records the job of its session, lists it under its line, and tells of its
/// start behind the call; nothing else changes.
pub proof fn lemma_finished_call_is_recorded(store: StoreView, input: ToolFinishInput)
    ensures
        ({
            let after = store.tool_finished(input);
            let line = tool_finish_text(input);
            &&& after.keys == store.keys
            &&& after.reports == store.reports
            &&& after.state.files_touched == store.state.files_touched
            &&& after.state.next_action == store.state.next_action
            &&& after.state.active_goal == store.state.active_goal
            &&& after.state.open_blockers == store.state.open_blockers
            &&& finished_job(input) is None ==> after.jobs == store.jobs && after.pending
                == store.pending && adds_evidence(after.state, store.state, line)
            &&& finished_job(input) matches Some(job) ==> {
                let id = job.process_id;
                &&& after.jobs.dom() == store.jobs.dom().insert(id)
                &&& !store.jobs.dom().contains(id) ==> after.jobs[id] == job
                &&& store.jobs.dom().contains(id) ==> after.jobs[id] == store.jobs[id].merged(job)
                &&& after.state.active_background_jobs.contains(after.jobs[id].summary())
                &&& exists|middle: Seq<Seq<char>>| #[trigger]
                    extends_within(middle, store.state.verified_evidence, seq![line], 16, 900)
                        && extends_within(
                        after.state.verified_evidence,
                        middle,
                        seq!["Native background exec started: "@ + after.jobs[id].summary()],
                        16,
                        900,
                    )
            }
        }),
{
    let after = store.tool_finished(input);
    let told = with_evidence(store.state, tool_finish_text(input));
    lemma_evidence_is_added(store.state, tool_finish_text(input));
    match finished_job(input) {
        Some(job) => {
            let id = job.process_id;
            let summary = after.jobs[id].summary();
            let before = crate::job_table::summary_before(store.jobs, id);
            lemma_job_line_is_replaced(told, before, summary);
            lemma_evidence_is_added(
                with_job_line(told, before, summary),
                "Native background exec started: "@ + summary,
            );
            assert(after.jobs.dom() =~= store.jobs.dom().insert(id));
            assert(extends_within(
                told.verified_evidence,
                store.state.verified_evidence,
                seq![tool_finish_text(input)],
                16,
                900,
            ));
        },
        None => {},
    }
}

/// What the host reports during a turn is recorded by what it is: the start of
/// a command, its end, or a trigger that fired; anything else changes nothing.
pub proof fn lemma_turn_event_is_recorded(
    store: StoreView,
    begin: ExecCommandBeginEvent,
    end: ExecCommandEndEvent,
    fired: ExecBackgroundTriggerEvent,
)
    ensures
        store.turn_event(EventMsg::ExecCommandBegin(begin)) == store.command_begun(begin),
        store.turn_event(EventMsg::ExecCommandEnd(end)) == store.command_ended(end),
        store.turn_event(EventMsg::ExecBackgroundTrigger(fired)) == store.trigger_fired(fired),
        store.turn_event(EventMsg::Other) == store,
        store.popped().pending.len() == 0,
        store.popped().state == store.state,
        store.popped().jobs == store.jobs,
        store.popped().keys == store.keys,
        store.popped().reports == store.reports,
{
}

/// A job that ends leaves the table, the other jobs stay, and its end is told
/// among the evidence, with its code and status.
pub proof fn lemma_ended_command_is_recorded(store: StoreView, event: ExecCommandEndEvent)
    ensures
        !(event.process_id is Some && store.jobs.dom().contains(event.process_id->0@))
            ==> store.command_ended(event) == store,
        event.process_id is Some && store.jobs.dom().contains(event.process_id->0@) ==> ({
            let after = store.command_ended(event);
            let id = event.process_id->0@;
            let job = store.jobs[id];
            &&& after.jobs == store.jobs.remove(id)
            &&& after.reports == store.reports
            &&& after.state.active_background_jobs == without(
                store.state.active_background_jobs,
                job.summary(),
            )
            &&& extends_within(
                after.state.verified_evidence,
                store.state.verified_evidence,
                seq![
                    "Native background exec session "@ + job.process_id + " ended with exit_code="@
                        + decimal_int(event.exit_code as int) + " status="@ + status_name(
                        event.status,
                    ) + ": "@ + truncated(job.description, 600),
                ],
                16,
                900,
            )
        }),
{
    if event.process_id is Some && store.jobs.dom().contains(event.process_id->0@) {
        let job = store.jobs[event.process_id->0@];
        let state = ContextView {
            active_background_jobs: without(
                store.state.active_background_jobs,
                job.summary(),
            ),
            ..store.state
        };
        lemma_evidence_is_added(state, exit_evidence(job, event));
        assert(exit_evidence(job, event) == "Native background exec session "@ + job.process_id
            + " ended with exit_code="@ + decimal_int(event.exit_code as int) + " status="@
            + status_name(event.status) + ": "@ + truncated(job.description, 600));
    }
}

/// The name of a status.
pub open spec fn status_name(status: ExecCommandStatus) -> Seq<char> {
    match status {
        ExecCommandStatus::Completed => "Completed"@,
        ExecCommandStatus::Failed => "Failed"@,
        ExecCommandStatus::Declined => "Declined"@,
    }
}

/// A trigger that fires is told among the evidence, and what waits for the model
/// tells the job's own description and triggers where the job is known, and
/// those of the trigger where it is not.
pub proof fn lemma_fired_trigger_is_recorded(store: StoreView, event: ExecBackgroundTriggerEvent)
    ensures
        ({
            let after = store.trigger_fired(event);
            let told = store.fired_event(event);
            &&& after.jobs == store.jobs
            &&& after.reports == store.reports
            &&& adds_evidence(
                after.state,
                store.state,
                "Native background exec session "@ + event.process_id@ + " fired trigger `"@
                    + event.trigger@ + "`: "@ + truncated(event.reason@, 600),
            )
            &&& told.process_id == event.process_id@
            &&& store.jobs.dom().contains(event.process_id@) ==> told.description
                == store.jobs[event.process_id@].description && told.triggers
                == store.jobs[event.process_id@].triggers && told.log_path
                == store.jobs[event.process_id@].log_path
            &&& !store.jobs.dom().contains(event.process_id@) ==> told.triggers == texts(
                event.declared_triggers@,
            ) && told.log_path is None && (event.description matches Some(text)
                ==> told.description == text@) && (event.description is None ==> told.description
                == "(no description recorded)"@)
        }),
{
    lemma_evidence_is_added(store.state, trigger_evidence(event));
}

/// Whether a patch touches a path: as the file that it changes, or as the place
/// that it moves it to.
pub open spec fn touches(changes: Seq<FileChangeEntry>, path: Seq<char>) -> bool {
    exists|i: int|
        0 <= i < changes.len() && ((#[trigger] changes[i]).path@ == path || (
        changes[i].change matches FileChange::Update { move_path: Some(to) } && to@ == path))
}

proof fn lemma_touched(changes: Seq<FileChangeEntry>, path: Seq<char>)
    ensures
        touched_paths(changes).contains(path) <==> touches(changes, path),
    decreases changes.len(),
{
    if changes.len() > 0 {
        let rest = changes.drop_last();
        let last = changes.last();
        let before = touched_paths(rest);
        let own = crate::file_changes::entry_paths(last);
        let all = touched_paths(changes);
        lemma_touched(rest, path);
        assert(all == before + own);
        if all.contains(path) {
            let k = choose|k: int| 0 <= k < all.len() && all[k] == path;
            if k < before.len() {
                assert(before[k] == path);
                let i = choose|i: int|
                    0 <= i < rest.len() && ((#[trigger] rest[i]).path@ == path || (
                    rest[i].change matches FileChange::Update { move_path: Some(to) } && to@
                        == path));
                assert(changes[i] == rest[i]);
            } else {
                assert(own[k - before.len()] == path);
                assert(changes[changes.len() - 1] == last);
            }
        }
        if touches(changes, path) {
            let i = choose|i: int|
                0 <= i < changes.len() && ((#[trigger] changes[i]).path@ == path || (
                changes[i].change matches FileChange::Update { move_path: Some(to) } && to@
                    == path));
            if i < rest.len() {
                assert(rest[i] == changes[i]);
                assert(before.contains(path));
                let k = choose|k: int| 0 <= k < before.len() && before[k] == path;
                assert(all[k] == path);
            } else if last.path@ == path {
                assert(all[before.len() as int] == path);
            } else {
                assert(all[before.len() as int + 1] == path);
            }
        }
    }
}

/// The paths of a patch are those that it touches, each once and in order.
pub proof fn lemma_patch_paths(item: FileChangeItem)
    ensures
        ascending(change_paths(item)),
        forall|path: Seq<char>| #[trigger]
            change_paths(item).contains(path) <==> touches(item.changes@, path),
{
    lemma_sorted_unique(touched_paths(item.changes@));
    assert forall|path: Seq<char>| #[trigger] change_paths(item).contains(path) <==> touches(
        item.changes@,
        path,
    ) by {
        lemma_touched(item.changes@, path);
    }
}

/// A patch that was applied adds its paths to the files that were touched, of
/// which the last thirty-two stay; one that was not adds none. Either is told
/// among the evidence.
pub proof fn lemma_patch_is_recorded(store: StoreView, item: FileChangeItem)
    ensures
        item.changes@.len() == 0 ==> store.file_changed(item) == store,
        change_paths(item).len() > 0 ==> ({
            let after = store.file_changed(item);
            let word = if item.status == Some(PatchApplyStatus::Completed) {
                "completed"@
            } else if item.status == Some(PatchApplyStatus::Failed) {
                "failed"@
            } else if item.status == Some(PatchApplyStatus::Declined) {
                "declined"@
            } else {
                "started"@
            };
            &&& item.status == Some(PatchApplyStatus::Completed) ==> extends_within(
                after.state.files_touched,
                store.state.files_touched,
                change_paths(item),
                32,
                1_200,
            )
            &&& item.status != Some(PatchApplyStatus::Completed) ==> after.state.files_touched
                == store.state.files_touched
            &&& extends_within(
                after.state.verified_evidence,
                store.state.verified_evidence,
                seq![
                    "Patch "@ + word + " touched "@ + decimal(change_paths(item).len())
                        + " file(s): "@ + truncated(join(change_paths(item), ", "@), 600),
                ],
                16,
                900,
            )
            &&& after.jobs == store.jobs
            &&& after.pending == store.pending
            &&& after.keys == store.keys
            &&& after.reports == store.reports
            &&& after.state.open_blockers == store.state.open_blockers
            &&& after.state.active_background_jobs == store.state.active_background_jobs
        }),
{
    if item.changes@.len() == 0 {
        assert(touched_paths(item.changes@).len() == 0);
        assert(change_paths(item).len() == 0);
    }
    lemma_capped_extends(store.state.files_touched, change_paths(item), 32, 1_200);
    lemma_capped_extends(store.state.verified_evidence, seq![patch_evidence(item)], 16, 900);
}

/// What is told of a tool call names the tool, how it ended, where it came from,
/// its turn and call, and what it printed.
pub proof fn lemma_tool_call_is_told(input: ToolFinishInput)
    ensures
        ({
            let outcome = match input.outcome {
                ToolCallOutcome::Completed { success: true } => "completed successfully"@,
                ToolCallOutcome::Completed { success: false } =>
                    "completed with a reported failure"@,
                ToolCallOutcome::Blocked => "was blocked by host policy"@,
                ToolCallOutcome::Failed { handler_executed: true } =>
                    "failed after its handler started"@,
                ToolCallOutcome::Failed { handler_executed: false } =>
                    "failed before its handler started"@,
                ToolCallOutcome::Aborted => "was aborted"@,
            };
            let source = match input.source {
                ToolCallSource::Direct => Seq::empty(),
                ToolCallSource::CodeMode { cell_id, runtime_tool_call_id } => " via code cell "@
                    + cell_id@ + ", runtime call "@ + runtime_tool_call_id@,
            };
            let output = match input.output_preview {
                Some(text) => if is_blank(text@) {
                    Seq::empty()
                } else {
                    ". Output preview: "@ + sanitized(text@, 600)->0
                },
                None => Seq::empty(),
            };
            tool_finish_text(input) == truncated(
                "Tool "@ + input.tool_name.label@ + " "@ + outcome + source + " (turn "@
                    + input.turn_id@ + ", call "@ + input.call_id@ + ")"@ + output,
                900,
            )
        }),
{
}

/// A fact that the model reports is told with its kind and its summary, as the
/// model's, with medium confidence and the call that made it.
pub proof fn lemma_report_is_the_models(
    args: RecordLinkContextArgs,
    turn_id: Seq<char>,
    call_id: Seq<char>,
    created_at_ms: Option<i64>,
)
    ensures
        ({
            let record = record_of(args, turn_id, call_id, created_at_ms);
            &&& record.summary == trim(args.summary@)
            &&& record.source == EvidenceSource::ModelReported
            &&& record.confidence == EvidenceConfidence::Medium
            &&& record.source_ref == Some("turn "@ + turn_id + ", call "@ + call_id)
            &&& record.created_at_ms == created_at_ms
            &&& !record.stale
            &&& args.related_paths matches Some(paths) ==> record.related_paths == texts(paths@)
            &&& args.related_paths is None ==> record.related_paths.len() == 0
            &&& args.kind == RecordKind::Decision ==> record.kind == EvidenceKind::Decision
            &&& args.kind == RecordKind::Observation ==> record.kind == EvidenceKind::Observation
            &&& args.kind == RecordKind::TestResult ==> record.kind == EvidenceKind::TestResult
            &&& args.kind == RecordKind::PlanUpdate ==> record.kind == EvidenceKind::PlanUpdate
            &&& args.kind == RecordKind::Blocker ==> record.kind == EvidenceKind::Blocker
        }),
{
}

/// The word for a kind of fact.
pub open spec fn kind_word(kind: EvidenceKind) -> Seq<char> {
    match kind {
        EvidenceKind::Decision => "decision"@,
        EvidenceKind::Observation => "observation"@,
        EvidenceKind::PlanUpdate => "plan"@,
        EvidenceKind::Blocker => "blocker"@,
        EvidenceKind::TestResult => "test"@,
        EvidenceKind::ToolResult => "tool"@,
        EvidenceKind::FileChange => "file"@,
        EvidenceKind::JobEvent => "job"@,
    }
}

/// A record is told with its kind, who reported it, how sure it is where that is
/// not high, whether it is stale, its summary, its reference and its paths.
pub proof fn lemma_record_is_rendered(record: EvidenceView)
    ensures
        ({
            let who = if record.source == EvidenceSource::HostObserved {
                "host"@
            } else {
                "model"@
            };
            let sure = match record.confidence {
                EvidenceConfidence::High => Seq::empty(),
                EvidenceConfidence::Medium => ", conf="@ + "medium"@,
                EvidenceConfidence::Low => ", conf="@ + "low"@,
            };
            let stale = if record.stale {
                ", stale"@
            } else {
                Seq::empty()
            };
            let reference = match record.source_ref {
                Some(text) => " ("@ + text + ")"@,
                None => Seq::empty(),
            };
            let paths = if record.related_paths.len() == 0 {
                Seq::empty()
            } else {
                " paths: "@ + join(record.related_paths, ", "@)
            };
            record.rendered() == "["@ + (kind_word(record.kind) + ", "@ + who + sure + stale)
                + "] "@ + record.summary + reference + paths
        }),
{
}

/// A record that is not blank and is not there yet, by its kind, summary and
/// reference, is put behind the others, of which the last are left.
pub proof fn lemma_record_is_put_last(
    records: Seq<EvidenceView>,
    record: EvidenceView,
    max_len: nat,
)
    ensures
        ({
            let after = with_record(records, record, max_len);
            let there = exists|i: int|
                0 <= i < records.len() && (#[trigger] records[i]).kind == record.kind
                    && records[i].summary == record.summary && records[i].source_ref
                    == record.source_ref;
            &&& is_blank(record.summary) || there ==> after == records
            &&& !is_blank(record.summary) && !there && records.len() < max_len ==> after
                == records.push(record)
            &&& !is_blank(record.summary) && !there && records.len() >= max_len ==> after
                == records.push(record).skip(records.len() + 1 - max_len)
        }),
{
    let id = record.identity();
    if exists|i: int|
        0 <= i < records.len() && (#[trigger] records[i]).kind == record.kind
            && records[i].summary == record.summary && records[i].source_ref
            == record.source_ref {
        let i = choose|i: int|
            0 <= i < records.len() && (#[trigger] records[i]).kind == record.kind
                && records[i].summary == record.summary && records[i].source_ref
                == record.source_ref;
        assert(records[i].identity() == id);
        assert(holds_fact(records, id));
    }
    if holds_fact(records, id) {
        let i = choose|i: int| 0 <= i < records.len() && (#[trigger] records[i]).identity() == id;
        assert(records[i].kind == record.kind);
    }
}

/// The end of a process is told with its code, minus one where none is known;
/// one that could not be run to its end is a failure, told with the reason. The
/// end of what was printed goes with it, at most two thousand characters.
pub proof fn lemma_process_end_is_told(end: ProcessEnd, transcript: Option<Seq<char>>)
    ensures
        end matches ProcessEnd::Exited(code) ==> ({
            let told = exit_event(end, transcript);
            let output = end_output(end, transcript);
            let number = if code is Some {
                code->0 as int
            } else {
                -1
            };
            let printed = if transcript is Some {
                transcript->0
            } else {
                Seq::empty()
            };
            &&& told.trigger == "on_exit"@
            &&& told.reason == "process exited with code "@ + decimal_int(number)
            &&& printed.len() <= 2_000 ==> told.output_tail == printed
            &&& printed.len() > 2_000 ==> told.output_tail == printed.skip(printed.len() - 2_000)
            &&& output.exit_code == number
            &&& output.stdout == printed
            &&& output.stderr.len() == 0
            &&& output.aggregated_output == printed
            &&& !output.failed
        }),
        end matches ProcessEnd::Failed(message) ==> ({
            let told = exit_event(end, transcript);
            let output = end_output(end, transcript);
            let printed = if transcript is Some {
                transcript->0
            } else {
                Seq::empty()
            };
            &&& told.trigger == "failure_exit"@
            &&& told.reason == "process failed: "@ + message@
            &&& transcript is Some && printed.len() <= 2_000 ==> told.output_tail == printed
            &&& transcript is Some && printed.len() > 2_000 ==> told.output_tail == printed.skip(
                printed.len() - 2_000,
            )
            &&& transcript is None && message@.len() <= 2_000 ==> told.output_tail == message@
            &&& output.exit_code == -1
            &&& output.stdout == printed
            &&& output.stderr == message@
            &&& printed.len() == 0 ==> output.aggregated_output == message@
            &&& printed.len() > 0 ==> output.aggregated_output == printed + "\n"@ + message@
            &&& output.failed
        }),
{
}

} // verus!
