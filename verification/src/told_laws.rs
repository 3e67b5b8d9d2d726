//! What holds of the texts that the model is told: what is made harmless, what
//! frames a text, and what is said of logs and of the ends of commands.

use vstd::prelude::*;
use vstd::utf8::encode_utf8;

use crate::capsule::{capsule_body, capsule_text, sections, wrapped};
use crate::context::ContextView;
use crate::decimal::{decimal, decimal_int};
use crate::exec_events::{ExecCommandEndEvent, ExecCommandStatus};
use crate::exit_report::transcript_text;
use crate::job_observe::{missing_text, read_text, snapshot_line, status_text, tail_text, wait_text};
use crate::jobs::JobView;
use crate::observation::{insert_by_id, sorted_by_id, JobWaitOutcome, SnapshotView};
use crate::rules::{cut_body, rule_text};
use crate::sanitize::{normalized, sanitized, truncated};
use crate::search::{has_prefix, replace};
use crate::split::words;
use crate::store::{exit_evidence, StoreView};
use crate::text::{eq_ignore_case, is_blank, trim};
use crate::trigger_events::{event_text, EventView};
use crate::utf8_stream::lossy_text;

verus! {

/// A value is shown on one line with single spaces between its words, its
/// markers in brackets in place of angles, and cut where it is too long. Of a
/// blank one nothing is shown.
pub proof fn lemma_value_is_shown_on_one_line(value: Seq<char>, max_chars: nat)
    ensures
        is_blank(value) ==> sanitized(value, max_chars) is None,
        !is_blank(value) ==> sanitized(value, max_chars) == Some(
            truncated(
                replace(
                    replace(
                        normalized(value),
                        "<codex_link_context_capsule>"@,
                        "[codex_link_context_capsule]"@,
                    ),
                    "</codex_link_context_capsule>"@,
                    "[/codex_link_context_capsule]"@,
                ),
                max_chars,
            ),
        ),
{
}

/// A capsule stands between its markers, each on a line of its own, whether its
/// body was cut or not, and what is cut is what stands between them.
pub proof fn lemma_capsule_stands_between_markers(
    facts: ContextView,
    max_chars: nat,
    body: Seq<char>,
)
    ensures
        capsule_text(facts, max_chars) == "<codex_link_context_capsule>\n"@ + sections(
            facts,
            max_chars,
        ) + "</codex_link_context_capsule>"@,
        wrapped(body) == "<codex_link_context_capsule>\n"@ + body
            + "\n</codex_link_context_capsule>"@,
        capsule_body("<codex_link_context_capsule>"@ + body + "</codex_link_context_capsule>"@)
            == trim(body),
{
    reveal_strlit("<codex_link_context_capsule>");
    reveal_strlit("<codex_link_context_capsule>\n");
    reveal_strlit("</codex_link_context_capsule>");
    reveal_strlit("\n</codex_link_context_capsule>");
    reveal_strlit("\n");
    let start = "<codex_link_context_capsule>"@;
    let end = "</codex_link_context_capsule>"@;
    assert(start + "\n"@ =~= "<codex_link_context_capsule>\n"@);
    assert("\n"@ + end =~= "\n</codex_link_context_capsule>"@);
    assert(wrapped(body) =~= (start + "\n"@) + body + ("\n"@ + end));
    let text = start + body + end;
    let last = text.len() - end.len();
    assert(text.subrange(0, start.len() as int) =~= start);
    assert(text.subrange(last, last + end.len()) =~= end);
    assert(text.subrange(start.len() as int, last) =~= body);
}

/// What is rendered of an event, and what is shown of a rule, cannot end its
/// frame: the markers are replaced.
pub proof fn lemma_markers_are_replaced(value: Seq<char>, path: Seq<char>)
    ensures
        event_text(value) == replace(
            replace(
                replace(
                    replace(
                        value,
                        "<codex_link_background_event>"@,
                        "[codex_link_background_event]"@,
                    ),
                    "</codex_link_background_event>"@,
                    "[/codex_link_background_event]"@,
                ),
                "<codex_internal_context"@,
                "[codex_internal_context"@,
            ),
            "</codex_internal_context>"@,
            "[/codex_internal_context]"@,
        ),
        rule_text(value) == replace(
            replace(value, "<codex_link_rules>"@, "<rules>"@),
            "</codex_link_rules>"@,
            "</rules>"@,
        ),
        cut_body(value, path) == rule_text(
            value + "\n(rule truncated; read "@ + path + " for the full text)"@,
        ),
{
}

/// What is told of a log names the log, which bytes or how many lines are
/// shown, how many bytes there are, and then what was read.
pub proof fn lemma_log_is_told(
    log_path: Seq<char>,
    offset: u64,
    total_bytes: u64,
    line_count: usize,
    shown: Seq<char>,
)
    ensures
        tail_text(log_path, total_bytes, line_count, shown) == "log: "@ + log_path + " ("@
            + decimal(total_bytes as nat) + " bytes total), last "@ + decimal(line_count as nat)
            + " lines:\n"@ + shown,
        offset + encode_utf8(shown).len() <= u64::MAX ==> read_text(
            log_path,
            offset,
            total_bytes,
            shown,
        ) == "log: "@ + log_path + ", bytes "@ + decimal(offset as nat) + ".."@ + decimal(
            (offset + encode_utf8(shown).len()) as nat,
        ) + " of "@ + decimal(total_bytes as nat) + ":\n"@ + shown,
{
}

/// The status of a session is its line, with the size of its log where there
/// is one.
pub proof fn lemma_status_tells_size(
    snapshot: SnapshotView,
    log_path: Seq<char>,
    size: u64,
    now_ms: i64,
)
    ensures
        status_text(snapshot, log_path, Some(size), now_ms) == snapshot_line(
            snapshot,
            log_path,
            now_ms,
        ) + " ("@ + (decimal(size as nat) + " bytes"@) + ")"@,
        status_text(snapshot, log_path, None, now_ms) == snapshot_line(snapshot, log_path, now_ms)
            + " ("@ + "not created yet"@ + ")"@,
{
}

/// A wait that ends with the session or in time out shows what the log ends
/// with, where there is something to show; a session that is not known is told
/// of by its log.
pub proof fn lemma_wait_shows_recent_output(
    session_id: i32,
    timeout_ms: u64,
    log_path: Seq<char>,
    log_exists: bool,
    tail: Seq<char>,
    code: i32,
)
    ensures
        wait_text(
            JobWaitOutcome::Exited { exit_code: Some(code) },
            session_id,
            timeout_ms,
            log_path,
            log_exists,
            Some(tail),
        ) == "session "@ + decimal_int(session_id as int) + " exited with code "@ + decimal_int(
            code as int,
        ) + "."@ + ("\nRecent output ("@ + log_path + "):\n"@ + tail),
        wait_text(
            JobWaitOutcome::Exited { exit_code: None },
            session_id,
            timeout_ms,
            log_path,
            log_exists,
            None,
        ) == "session "@ + decimal_int(session_id as int) + " exited with code unknown."@,
        wait_text(
            JobWaitOutcome::TimedOut,
            session_id,
            timeout_ms,
            log_path,
            log_exists,
            Some(tail),
        ) == "session "@ + decimal_int(session_id as int) + " is still running after "@ + decimal(
            timeout_ms as nat,
        ) + " ms; wait again or tail its log."@ + ("\nRecent output ("@ + log_path + "):\n"@ + tail),
        has_prefix(
            missing_text(session_id, log_path, true),
            "session "@ + decimal_int(session_id as int)
                + " is not tracked anymore (it already exited or was cancelled); its exit was reported as a job event. Its durable log remains: "@
                + log_path,
        ),
        missing_text(session_id, log_path, false) == "no session "@ + decimal_int(
            session_id as int,
        ) + " in this thread: nothing is tracked under that id and no log file exists at "@
            + log_path + "."@,
{
    reveal_strlit(" exited with code ");
    reveal_strlit("unknown");
    reveal_strlit(".");
    reveal_strlit(" exited with code unknown.");
    assert(" exited with code "@ + "unknown"@ + "."@ =~= " exited with code unknown."@);
    assert("session "@ + decimal_int(session_id as int) + " exited with code "@ + "unknown"@ + "."@
        + Seq::<char>::empty() =~= "session "@ + decimal_int(session_id as int)
        + " exited with code unknown."@);
    let lead = "session "@ + decimal_int(session_id as int)
        + " is not tracked anymore (it already exited or was cancelled); its exit was reported as a job event. Its durable log remains: "@
        + log_path;
    assert(missing_text(session_id, log_path, true).subrange(0, lead.len() as int) =~= lead);
}

/// The jobs of one session, in their order.
pub open spec fn of_session(jobs: Seq<SnapshotView>, process_id: i32) -> Seq<SnapshotView>
    decreases jobs.len(),
{
    if jobs.len() == 0 {
        Seq::empty()
    } else {
        let before = of_session(jobs.drop_last(), process_id);
        if jobs.last().process_id == process_id {
            before.push(jobs.last())
        } else {
            before
        }
    }
}

proof fn lemma_inserted_last(jobs: Seq<SnapshotView>, job: SnapshotView, process_id: i32)
    ensures
        of_session(insert_by_id(jobs, job), process_id) == if job.process_id == process_id {
            of_session(jobs, process_id).push(job)
        } else {
            of_session(jobs, process_id)
        },
    decreases jobs.len(),
{
    if jobs.len() == 0 || jobs.last().process_id <= job.process_id {
        assert(jobs.push(job).drop_last() =~= jobs);
    } else {
        let rest = jobs.drop_last();
        lemma_inserted_last(rest, job, process_id);
        let after = insert_by_id(jobs, job);
        assert(after.drop_last() =~= insert_by_id(rest, job));
        assert(after.last() == jobs.last());
    }
}

/// Sorting by session keeps the jobs of one session in their order.
pub proof fn lemma_sorting_keeps_order_of_session(jobs: Seq<SnapshotView>, process_id: i32)
    ensures
        of_session(sorted_by_id(jobs), process_id) == of_session(jobs, process_id),
    decreases jobs.len(),
{
    if jobs.len() > 0 {
        lemma_sorting_keeps_order_of_session(jobs.drop_last(), process_id);
        lemma_inserted_last(sorted_by_id(jobs.drop_last()), jobs.last(), process_id);
    }
}

/// Whether a report on exit was asked for among the triggers of a job.
pub open spec fn wants_exit(job: JobView) -> bool {
    exists|i: int|
        0 <= i < job.triggers.len() && eq_ignore_case(#[trigger] job.triggers[i], "on_exit"@)
}

/// The end of a known command is queued as an event where the command failed,
/// or where a report on exit was asked for, and is only recorded otherwise. The
/// end of any other command changes nothing.
pub proof fn lemma_end_is_queued_where_it_matters(store: StoreView, event: ExecCommandEndEvent)
    ensures
        event.process_id is None || !store.jobs.dom().contains(event.process_id->0@)
            ==> store.command_ended(event) == store,
        event.process_id is Some && store.jobs.dom().contains(event.process_id->0@) ==> ({
            let job = store.jobs[event.process_id->0@];
            let over = store.command_over(event);
            let failed = event.exit_code != 0 || !(event.status is Completed);
            &&& failed || wants_exit(job) ==> store.command_ended(event) == over.enqueued(
                EventView::ended(job, event),
            )
            &&& !failed && !wants_exit(job) ==> store.command_ended(event) == over
            &&& over.pending == store.pending
            &&& over.keys == store.keys
            &&& over.reports == store.reports
        }),
{
}

/// The end of a command is recorded with its session, its exit code, the name of
/// its status, and what the job was for.
pub proof fn lemma_recorded_end_names_status(job: JobView, event: ExecCommandEndEvent)
    requires
        job.description.len() <= 600,
    ensures
        exit_evidence(job, event) == "Native background exec session "@ + job.process_id
            + " ended with exit_code="@ + decimal_int(event.exit_code as int) + " status="@ + (
        match event.status {
            ExecCommandStatus::Completed => "Completed"@,
            ExecCommandStatus::Failed => "Failed"@,
            ExecCommandStatus::Declined => "Declined"@,
        }) + ": "@ + job.description,
        EventView::ended(job, event).status == match event.status {
            ExecCommandStatus::Completed => "Completed"@,
            ExecCommandStatus::Failed => "Failed"@,
            ExecCommandStatus::Declined => "Declined"@,
        },
{
}

/// How words are spaced makes no difference to what is shown of them.
pub proof fn lemma_spacing_makes_no_difference(a: Seq<char>, b: Seq<char>)
    requires
        words(a) == words(b),
    ensures
        normalized(a) == normalized(b),
{
}

/// Facts are blank exactly where every value of every field is, so that any
/// value that is not is worth a capsule.
pub proof fn lemma_facts_are_blank(facts: ContextView)
    ensures
        facts.is_blank() <==> {
            &&& facts.active_goal matches Some(text) ==> is_blank(text)
            &&& facts.next_action matches Some(text) ==> is_blank(text)
            &&& forall|i: int|
                0 <= i < facts.success_criteria.len() ==> is_blank(
                    #[trigger] facts.success_criteria[i],
                )
            &&& forall|i: int|
                0 <= i < facts.current_progress.len() ==> is_blank(
                    #[trigger] facts.current_progress[i],
                )
            &&& forall|i: int|
                0 <= i < facts.files_touched.len() ==> is_blank(#[trigger] facts.files_touched[i])
            &&& forall|i: int|
                0 <= i < facts.verified_evidence.len() ==> is_blank(
                    #[trigger] facts.verified_evidence[i],
                )
            &&& forall|i: int|
                0 <= i < facts.active_background_jobs.len() ==> is_blank(
                    #[trigger] facts.active_background_jobs[i],
                )
            &&& forall|i: int|
                0 <= i < facts.open_blockers.len() ==> is_blank(#[trigger] facts.open_blockers[i])
        },
{
}

/// A transcript is told as the text of all its bytes; an empty one is none.
pub proof fn lemma_transcript_is_told_whole(transcript: Seq<u8>)
    ensures
        transcript.len() == 0 ==> transcript_text(transcript) is None,
        transcript.len() > 0 ==> transcript_text(transcript) == Some(lossy_text(transcript)),
{
}

} // verus!
