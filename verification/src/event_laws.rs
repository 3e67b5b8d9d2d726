//! What holds of background events: what each tells, how one completes another,
//! and how the queue of those that wait changes.

use vstd::prelude::*;

use crate::choices::{is_choice, lemma_choice_step, lemma_no_choice, lemma_same_choice};
use crate::decimal::decimal_int;
use crate::exec_events::{ExecBackgroundTriggerEvent, ExecCommandEndEvent, ExecCommandStatus};
use crate::jobs::JobView;
use crate::list_laws::{extends, lemma_append_extends};
use crate::pending::{key_position, lemma_key_position, not_superseded, with_job_facts};
use crate::sanitize::truncated;
use crate::search::has_prefix;
use crate::split::join;
use crate::store::StoreView;
use crate::text::{eq_ignore_case, texts, trim};
use crate::trigger_events::{event_text, EventView};

verus! {

/// Whether a trigger is one of the two that report the end of a command.
pub open spec fn reports_end(event: EventView) -> bool {
    eq_ignore_case(event.trigger, "on_exit"@) || eq_ignore_case(event.trigger, "failure_exit"@)
}

/// Whether an event makes one that waits needless: both report the end of the
/// same session, and it knows how that ended.
pub open spec fn replaces(event: EventView, waiting: EventView) -> bool {
    &&& event.process_id == waiting.process_id
    &&& reports_end(event)
    &&& event.exit_code != "still running"@
    &&& reports_end(waiting)
}

/// Whether the chosen positions are those of the events that stay.
pub open spec fn chooses_staying(at: Seq<int>, events: Seq<EventView>, event: EventView) -> bool {
    is_choice(at, events.len() as int, |i: int| !replaces(event, events[i]))
}

proof fn lemma_staying(events: Seq<EventView>, event: EventView) -> (at: Seq<int>)
    ensures
        chooses_staying(at, events, event),
        not_superseded(events, event).len() == at.len(),
        forall|j: int|
            0 <= j < at.len() ==> #[trigger] not_superseded(events, event)[j] == events[at[j]],
    decreases events.len(),
{
    let chosen = |i: int| !replaces(event, events[i]);
    if events.len() == 0 {
        lemma_no_choice(chosen);
        Seq::empty()
    } else {
        let rest = events.drop_last();
        let n = rest.len() as int;
        let at = lemma_staying(rest, event);
        lemma_same_choice(at, n, |i: int| !replaces(event, rest[i]), chosen);
        lemma_choice_step(at, n, chosen);
        assert(event.supersedes(events.last()) == replaces(event, events.last()));
        let after = not_superseded(events, event);
        let more = if chosen(n) {
            at.push(n)
        } else {
            at
        };
        assert forall|j: int| 0 <= j < more.len() implies #[trigger] after[j]
            == events[more[j]] by {
            if j < at.len() {
                assert(not_superseded(rest, event)[j] == rest[at[j]]);
            }
        }
        more
    }
}

/// Whether a store is another with an event that is new: those that it makes
/// needless are gone, it waits behind the others, and where more than sixteen
/// wait then, the oldest is dropped; its key is known, and of more than a
/// hundred and twenty-eight keys the oldest is forgotten.
pub open spec fn queues(after: StoreView, store: StoreView, event: EventView) -> bool {
    exists|at: Seq<int>, all: Seq<EventView>|
        {
            &&& #[trigger] chooses_staying(at, store.pending, event)
            &&& all.len() == at.len() + 1
            &&& forall|j: int| 0 <= j < at.len() ==> all[j] == store.pending[#[trigger] at[j]]
            &&& all.last() == event
            &&& all.len() <= 16 ==> after.pending == all
            &&& all.len() > 16 ==> after.pending == #[trigger] all.skip(all.len() - 16)
            &&& store.keys.len() < 128 ==> after.keys == store.keys.push(event.event_key)
            &&& store.keys.len() >= 128 ==> after.keys == store.keys.push(event.event_key).skip(
                store.keys.len() - 127,
            )
        }
}

/// An event whose key waits completes that one, in its place. One whose key was
/// seen, and does not wait, is not queued again. Any other waits behind all that
/// it does not make needless. Facts, jobs and reports stay.
pub proof fn lemma_queue_takes_event(store: StoreView, event: EventView)
    ensures
        ({
            let after = store.enqueued(event);
            let waits = |i: int|
                0 <= i < store.pending.len() && store.pending[i].event_key == event.event_key;
            &&& after.state == store.state
            &&& after.jobs == store.jobs
            &&& after.reports == store.reports
            &&& forall|i: int|
                #[trigger] waits(i) && (forall|j: int| #[trigger] waits(j) ==> i <= j)
                    ==> after.keys == store.keys && after.pending == store.pending.update(
                    i,
                    store.pending[i].merged(event),
                )
            &&& (forall|i: int| !#[trigger] waits(i)) && store.keys.contains(event.event_key)
                ==> after.keys == store.keys && exists|at: Seq<int>| #[trigger]
                chooses_staying(at, store.pending, event) && after.pending.len() == at.len()
                    && forall|j: int|
                    0 <= j < at.len() ==> after.pending[j] == store.pending[#[trigger] at[j]]
            &&& (forall|i: int| !#[trigger] waits(i)) && !store.keys.contains(event.event_key)
                ==> queues(after, store, event)
        }),
{
    let after = store.enqueued(event);
    let waits = |i: int|
        0 <= i < store.pending.len() && store.pending[i].event_key == event.event_key;
    lemma_key_position(store.pending, event.event_key);
    let at = lemma_staying(store.pending, event);
    match key_position(store.pending, event.event_key) {
        Some(k) => {
            assert(waits(k));
            assert forall|i: int|
                #[trigger] waits(i) && (forall|j: int| #[trigger] waits(j) ==> i <= j) implies i
                == k by {
                if k < i {
                    assert(waits(k));
                }
            }
        },
        None => {
            assert forall|i: int| !#[trigger] waits(i) by {}
            let rest = not_superseded(store.pending, event);
            if store.keys.contains(event.event_key) {
                assert forall|j: int| 0 <= j < at.len() implies after.pending[j]
                    == store.pending[#[trigger] at[j]] by {
                    assert(rest[j] == store.pending[at[j]]);
                }
            } else {
                let all = rest.push(event);
                assert forall|j: int| 0 <= j < at.len() implies all[j] == store.pending[
                    #[trigger] at[j]] by {
                    assert(rest[j] == store.pending[at[j]]);
                }
                let _ = all.skip(all.len() - 16);
                assert(queues(after, store, event));
            }
        },
    }
}

/// An event that waits keeps what it tells, and takes from a later one of its
/// key what it lacks; of the triggers, those that are new.
pub proof fn lemma_event_is_completed(event: EventView, other: EventView)
    ensures
        ({
            let after = event.merged(other);
            &&& after.event_key == event.event_key
            &&& after.process_id == event.process_id
            &&& after.trigger == event.trigger
            &&& event.description == "(no description recorded)"@ ==> after.description
                == other.description
            &&& event.description != "(no description recorded)"@ ==> after.description
                == event.description
            &&& extends(after.triggers, event.triggers, other.triggers, usize::MAX as nat)
            &&& event.command.len() == 0 ==> after.command == other.command
            &&& event.command.len() > 0 ==> after.command == event.command
            &&& event.cwd.len() == 0 ==> after.cwd == other.cwd
            &&& event.cwd.len() > 0 ==> after.cwd == event.cwd
            &&& event.exit_code == "still running"@ ==> after.exit_code == other.exit_code
            &&& event.exit_code != "still running"@ ==> after.exit_code == event.exit_code
            &&& event.status == "running"@ ==> after.status == other.status
            &&& event.status != "running"@ ==> after.status == event.status
            &&& event.tail.len() == 0 ==> after.tail == other.tail
            &&& event.tail.len() > 0 ==> after.tail == event.tail
            &&& event.log_path is None ==> after.log_path == other.log_path
            &&& event.log_path is Some ==> after.log_path == event.log_path
        }),
{
    lemma_append_extends(event.triggers, other.triggers, usize::MAX as nat);
}

/// The events of a job's session take from the job what they lack; all others
/// stay, and so does the order.
pub proof fn lemma_events_take_job_facts(events: Seq<EventView>, job: JobView)
    ensures
        with_job_facts(events, job).len() == events.len(),
        forall|i: int|
            0 <= i < events.len() && events[i].process_id != job.process_id
                ==> #[trigger] with_job_facts(events, job)[i] == events[i],
        forall|i: int|
            0 <= i < events.len() && events[i].process_id == job.process_id ==> is_completed_by(
                #[trigger] with_job_facts(events, job)[i],
                events[i],
                job,
            ),
{
    assert forall|i: int|
        0 <= i < events.len() && events[i].process_id == job.process_id implies is_completed_by(
        #[trigger] with_job_facts(events, job)[i],
        events[i],
        job,
    ) by {
        lemma_append_extends(events[i].triggers, job.triggers, usize::MAX as nat);
    }
}

/// Whether an event is another with what that lacks taken from a job.
pub open spec fn is_completed_by(after: EventView, event: EventView, job: JobView) -> bool {
    &&& after.event_key == event.event_key
    &&& after.process_id == event.process_id
    &&& after.trigger == event.trigger
    &&& after.exit_code == event.exit_code
    &&& after.status == event.status
    &&& after.tail == event.tail
    &&& event.description == "(no description recorded)"@ ==> after.description == job.description
    &&& event.description != "(no description recorded)"@ ==> after.description
        == event.description
    &&& extends(after.triggers, event.triggers, job.triggers, usize::MAX as nat)
    &&& event.command.len() > 0 || job.command is None ==> after.command == event.command
    &&& event.command.len() == 0 && job.command is Some ==> after.command == job.command->0
    &&& event.cwd.len() > 0 || job.cwd is None ==> after.cwd == event.cwd
    &&& event.cwd.len() == 0 && job.cwd is Some ==> after.cwd == job.cwd->0
    &&& event.log_path is Some ==> after.log_path == event.log_path
    &&& event.log_path is None ==> after.log_path == job.log_path
}

/// The event of a command that ended tells how: it is a failure unless the
/// command completed with code zero, and it names the job's session, the code,
/// the status and what was printed.
pub proof fn lemma_end_is_told(job: JobView, event: ExecCommandEndEvent)
    ensures
        ({
            let told = EventView::ended(job, event);
            let code = decimal_int(event.exit_code as int);
            &&& told.event_key == "exec:"@ + job.process_id + ":exit:"@ + code
            &&& told.process_id == job.process_id
            &&& told.trigger == "on_exit"@ <==> event.exit_code == 0
                && event.status == ExecCommandStatus::Completed
            &&& told.trigger == "on_exit"@ || told.trigger == "failure_exit"@
            &&& told.description == job.description
            &&& told.triggers == job.triggers
            &&& told.log_path == job.log_path
            &&& told.exit_code == code
            &&& event.status == ExecCommandStatus::Completed ==> told.status == "Completed"@
            &&& event.status == ExecCommandStatus::Failed ==> told.status == "Failed"@
            &&& event.status == ExecCommandStatus::Declined ==> told.status == "Declined"@
            &&& told.command == join(texts(event.command@), " "@)
            &&& told.cwd == event.cwd@
            &&& event.aggregated_output@.len() <= 2_000 ==> told.tail == event.aggregated_output@
            &&& event.aggregated_output@.len() > 2_000 ==> told.tail == truncated(
                event.aggregated_output@,
                2_000,
            )
        }),
{
    reveal_strlit("on_exit");
    reveal_strlit("failure_exit");
    assert("on_exit"@[0] != "failure_exit"@[0]);
}

/// The event of a trigger that fired tells which, and that the command still
/// runs, unless the trigger reports its end.
pub proof fn lemma_firing_is_told(
    event: ExecBackgroundTriggerEvent,
    description: Seq<char>,
    triggers: Seq<Seq<char>>,
    log_path: Option<Seq<char>>,
)
    ensures
        ({
            let told = EventView::fired(event, description, triggers, log_path);
            let ends = eq_ignore_case(event.trigger@, "on_exit"@);
            let fails = eq_ignore_case(event.trigger@, "failure_exit"@);
            &&& told.process_id == event.process_id@
            &&& told.trigger == event.trigger@
            &&& told.description == description
            &&& told.triggers == triggers
            &&& told.log_path == log_path
            &&& told.command == join(texts(event.command@), " "@)
            &&& told.cwd == event.cwd@
            &&& event.output_tail@.len() <= 2_000 ==> told.tail == event.output_tail@
            &&& !ends && !fails ==> told.exit_code == "still running"@ && told.status == "running"@
                && told.event_key == "exec:"@ + event.process_id@ + ":background_trigger:"@
                + event.trigger@
            &&& ends || fails ==> told.event_key == "exec:"@ + event.process_id@ + ":exit:"@
                + told.exit_code
            &&& ends ==> told.status == "Completed"@
            &&& !ends && fails ==> told.status == "Failed"@ && told.exit_code == "failed"@
            &&& forall|code: Seq<char>|
                ends && code.len() > 0 && trim(code) == code && event.reason@
                    == #[trigger] ("process exited with code "@ + code) ==> told.exit_code == code
            &&& ends && !has_prefix(event.reason@, "process exited with code "@) ==> told.exit_code
                == "0"@
        }),
{
    let told = EventView::fired(event, description, triggers, log_path);
    let prefix = "process exited with code "@;
    assert forall|code: Seq<char>|
        eq_ignore_case(event.trigger@, "on_exit"@) && code.len() > 0 && trim(code) == code
            && event.reason@ == #[trigger] (prefix + code) implies told.exit_code == code by {
        assert(event.reason@.subrange(0, prefix.len() as int) =~= prefix);
        assert(event.reason@.skip(prefix.len() as int) =~= code);
    }
}

/// One field of a rendered event, behind its label.
pub open spec fn field_line(label: Seq<char>, value: Seq<char>) -> Seq<char> {
    label + event_text(value) + "\n"@
}

/// A rendered event tells each of its fields on a line of its own, behind the
/// label of that field.
pub proof fn lemma_event_is_rendered(event: EventView)
    ensures
        ({
            let triggers = if event.triggers.len() == 0 {
                "(none recorded)"@
            } else {
                join(event.triggers, ", "@)
            };
            let log = if event.log_path is Some {
                event.log_path->0
            } else {
                "(none recorded)"@
            };
            event.rendered() == "<codex_link_background_event>"@ + "\n"@ + (field_line(
                "Process: "@,
                event.process_id,
            ) + field_line("Trigger: "@, event.trigger) + field_line(
                "Description: "@,
                event.description,
            ) + field_line("Declared triggers: "@, triggers) + field_line(
                "Command: "@,
                event.command,
            ) + field_line("CWD: "@, event.cwd) + field_line("Log: "@, log) + field_line(
                "Exit code: "@,
                event.exit_code,
            ) + field_line("Status: "@, event.status) + field_line("Output tail:\n"@, event.tail)
                + "Instruction: This background event has already fired. Do at most one follow-up pass: inspect the result, update the plan or files if needed, and do not start another wait/poll loop unless you deliberately launch a new background command with fresh triggers.\n"@)
                + "</codex_link_background_event>"@
        }),
{
}

} // verus!
