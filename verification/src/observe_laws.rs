//! What holds of the observation of sessions: what a request asks for is what
//! is done, within fixed bounds.

use vstd::prelude::*;

use crate::choices::{is_choice, lemma_choice_step, lemma_no_choice, lemma_same_choice};
use crate::decimal::{decimal, decimal_int};
use crate::job_observe::{
    cancel_text, command_text, elapsed_text, last_lines, list_text, log_window, missing_text,
    planned, snapshot_line, state_text, tail_offset, wait_text, JobObserveAction, JobObserveArgs,
    ListedView, ObservePlan,
};
use crate::lists::keep_last;
use crate::observation::{
    archived, other_jobs, wait_after, JobWaitOutcome, SnapshotView, WaitEvent, WaitStep,
};
use crate::search::has_prefix;
use crate::split::{join, lines};
use crate::text_laws::{has_plain_endings, lemma_join_both, lemma_lines_hold_all};

verus! {

/// Whether a number is the wanted one, brought within bounds: it is kept where
/// it lies within them, and is the nearest bound where it does not.
pub open spec fn is_nearest(got: int, wanted: int, least: int, most: int) -> bool {
    &&& least <= got <= most
    &&& least <= wanted <= most ==> got == wanted
    &&& wanted < least ==> got == least
    &&& wanted > most ==> got == most
}

/// A request is refused exactly where it needs a session and names none, and
/// is otherwise planned for the session and the action that it names.
pub proof fn lemma_request_is_planned(args: JobObserveArgs)
    ensures
        planned(args) is None <==> args.action != JobObserveAction::List && args.session_id is None,
        args.action == JobObserveAction::List ==> planned(args) == Some(
            ObservePlan::List { recent_completed: 8 },
        ),
        args.action == JobObserveAction::Status && args.session_id is Some ==> planned(args)
            == Some(ObservePlan::Status { session_id: args.session_id->0 }),
        args.action == JobObserveAction::Tail && args.session_id is Some ==> (planned(
            args,
        ) matches Some(ObservePlan::Tail { session_id, lines }) && session_id == args.session_id->0),
        args.action == JobObserveAction::Read && args.session_id is Some ==> (planned(
            args,
        ) matches Some(ObservePlan::Read { session_id, offset, limit }) && session_id == args.session_id->0),
        args.action == JobObserveAction::Wait && args.session_id is Some ==> (planned(
            args,
        ) matches Some(ObservePlan::Wait { session_id, timeout_ms }) && session_id == args.session_id->0),
{
}

/// The number of lines that is asked for is the number that is shown, from one
/// to four hundred; fifty where none is asked for.
pub proof fn lemma_tail_lines_are_kept(args: JobObserveArgs)
    requires
        args.action == JobObserveAction::Tail,
    ensures
        planned(args) matches Some(ObservePlan::Tail { session_id, lines }) ==> ({
            &&& args.tail_lines matches Some(n) ==> is_nearest(lines as int, n as int, 1, 400)
            &&& args.tail_lines is None ==> lines == 50
        }),
{
}

/// A range is read from the offset that is asked for, the start where none is,
/// and so many bytes as are asked for, from one to sixteen kibibytes; eight
/// where none are.
pub proof fn lemma_read_range_is_kept(args: JobObserveArgs)
    requires
        args.action == JobObserveAction::Read,
    ensures
        planned(args) matches Some(ObservePlan::Read { session_id, offset, limit }) ==> ({
            &&& args.offset_bytes matches Some(n) ==> offset == n
            &&& args.offset_bytes is None ==> offset == 0
            &&& args.limit_bytes matches Some(n) ==> is_nearest(limit as int, n as int, 1, 16_384)
            &&& args.limit_bytes is None ==> limit == 8_192
        }),
{
}

/// A wait lasts as long as is asked for, from a second to ten minutes; thirty
/// seconds where nothing is.
pub proof fn lemma_wait_time_is_kept(args: JobObserveArgs)
    requires
        args.action == JobObserveAction::Wait,
    ensures
        planned(args) matches Some(ObservePlan::Wait { session_id, timeout_ms }) ==> ({
            &&& args.timeout_ms matches Some(n) ==> is_nearest(
                timeout_ms as int,
                n as int,
                1_000,
                600_000,
            )
            &&& args.timeout_ms is None ==> timeout_ms == 30_000
        }),
{
}

/// The last lines of a text are its end, from the start of a line on: as many
/// lines as are asked for, or all of them.
pub proof fn lemma_last_lines_are_the_end(text: Seq<char>, n: nat)
    requires
        has_plain_endings(text),
        n > 0,
    ensures
        lines(text).len() <= n ==> text == last_lines(text, n) || text == last_lines(text, n)
            + seq!['\n'],
        lines(text).len() > n ==> exists|before: Seq<char>|
            text == #[trigger] (before + seq!['\n'] + last_lines(text, n)) || text == before
                + seq!['\n'] + last_lines(text, n) + seq!['\n'],
        last_lines(text, n) == join(keep_last(lines(text), n), seq!['\n']),
{
    reveal_strlit("\n");
    assert("\n"@ =~= seq!['\n']);
    let sep = seq!['\n'];
    let all = lines(text);
    lemma_lines_hold_all(text);
    if all.len() > n {
        let k = all.len() - n;
        let a = all.take(k);
        let b = all.skip(k);
        assert(a + b =~= all);
        lemma_join_both(a, b, sep);
        let before = join(a, sep);
        let end = last_lines(text, n);
        assert(join(all, sep) == before + sep + end);
        if text.len() > 0 && text.last() == '\n' {
            assert(text == before + sep + end + sep);
            let _ = before + seq!['\n'] + end;
        }
    }
}

/// What is read of a log begins at the offset, and is as long as is asked for,
/// as far as the log goes.
pub proof fn lemma_window_is_whole(contents: Seq<u8>, offset: int, limit: int)
    requires
        0 <= offset,
        0 <= limit,
    ensures
        offset + limit <= contents.len() ==> log_window(contents, offset, limit)
            == contents.subrange(offset, offset + limit),
        offset <= contents.len() < offset + limit ==> log_window(contents, offset, limit)
            == contents.skip(offset),
        contents.len() < offset ==> log_window(contents, offset, limit).len() == 0,
{
}

/// The scan for the last lines of a log sees the end of the log: all of it, or
/// its last sixty-four kibibytes.
pub proof fn lemma_scan_sees_the_end(contents: Seq<u8>)
    ensures
        contents.len() <= 65_536 ==> log_window(
            contents,
            tail_offset(contents.len() as int),
            65_536,
        ) == contents,
        contents.len() > 65_536 ==> log_window(
            contents,
            tail_offset(contents.len() as int),
            65_536,
        ) == contents.skip(contents.len() - 65_536),
{
    if contents.len() <= 65_536 {
        assert(log_window(contents, tail_offset(contents.len() as int), 65_536) =~= contents);
    }
}

/// Whether a text is a number of seconds in a unit, rounded down.
pub open spec fn is_rounded(text: Seq<char>, seconds: int, unit: int, sign: Seq<char>) -> bool {
    exists|n: int|
        0 <= n && text == #[trigger] decimal(n as nat) + sign && n * unit <= seconds < (n + 1)
            * unit
}

/// A stretch of time is told in whole seconds below two minutes, in whole
/// minutes below two hours, and in whole hours from then on.
pub proof fn lemma_elapsed_time_is_told(elapsed_ms: int)
    requires
        elapsed_ms >= 0,
    ensures
        elapsed_ms < 120_000 ==> is_rounded(elapsed_text(elapsed_ms), elapsed_ms, 1_000, "s"@),
        120_000 <= elapsed_ms < 7_200_000 ==> is_rounded(
            elapsed_text(elapsed_ms),
            elapsed_ms,
            60_000,
            "m"@,
        ),
        7_200_000 <= elapsed_ms ==> is_rounded(
            elapsed_text(elapsed_ms),
            elapsed_ms,
            3_600_000,
            "h"@,
        ),
{
    let seconds = elapsed_ms / 1_000;
    if elapsed_ms < 120_000 {
        assert(elapsed_text(elapsed_ms) == decimal(seconds as nat) + "s"@);
    } else if elapsed_ms < 7_200_000 {
        assert(elapsed_text(elapsed_ms) == decimal((seconds / 60) as nat) + "m"@);
    } else {
        assert(elapsed_text(elapsed_ms) == decimal((seconds / 3_600) as nat) + "h"@);
    }
}

/// A command is shown whole up to a hundred and twenty characters; of a longer
/// one so many are, and a sign that there is more.
pub proof fn lemma_command_is_shown(command: Seq<char>)
    ensures
        command.len() <= 120 ==> command_text(command) == command,
        command.len() > 120 ==> command_text(command) == command.take(120) + "…"@,
{
}

/// Whether a job runs, or else the code with which it has exited.
pub open spec fn told_state(snapshot: SnapshotView) -> Seq<char> {
    if snapshot.running {
        "running"@
    } else if snapshot.exit_code is Some {
        "exited ("@ + decimal_int(snapshot.exit_code->0 as int) + ")"@
    } else {
        "exited"@
    }
}

/// The line of a job names its session, its state, its command, its directory
/// and its log; a job that runs is running, and one that does not has exited,
/// with its code where that is known.
pub proof fn lemma_job_line_tells_state(snapshot: SnapshotView, log_path: Seq<char>, now_ms: i64)
    ensures
        exists|rest: Seq<char>|
            snapshot_line(snapshot, log_path, now_ms) == #[trigger] ("- session_id "@ + decimal_int(
                snapshot.process_id as int,
            ) + ": "@ + told_state(snapshot) + " | "@ + command_text(snapshot.command) + " (cwd: "@
                + snapshot.cwd + ")"@ + rest + " | log: "@ + log_path),
        snapshot.background_description matches Some(told) ==> exists|a: Seq<char>, b: Seq<char>|
            snapshot_line(snapshot, log_path, now_ms) == #[trigger] (a + (" | "@ + told) + b),
        snapshot.background_triggers.len() > 0 ==> exists|a: Seq<char>, b: Seq<char>|
            snapshot_line(snapshot, log_path, now_ms) == #[trigger] (a + (" | triggers: "@ + join(
                snapshot.background_triggers,
                ", "@,
            )) + b),
        snapshot.started_at_unix_ms > 0 ==> exists|a: Seq<char>, b: Seq<char>|
            snapshot_line(snapshot, log_path, now_ms) == #[trigger] (a + (" | started "@
                + elapsed_text(now_ms - snapshot.started_at_unix_ms) + " ago"@) + b),
        snapshot.started_at_unix_ms <= 0 && snapshot.background_description is None
            && snapshot.background_triggers.len() == 0 ==> snapshot_line(
            snapshot,
            log_path,
            now_ms,
        ) == "- session_id "@ + decimal_int(snapshot.process_id as int) + ": "@ + told_state(
            snapshot,
        ) + " | "@ + command_text(snapshot.command) + " (cwd: "@ + snapshot.cwd + ")"@
            + " | log: "@ + log_path,
{
    let started = if snapshot.started_at_unix_ms > 0 {
        " | started "@ + elapsed_text(now_ms - snapshot.started_at_unix_ms) + " ago"@
    } else {
        Seq::empty()
    };
    let described = match snapshot.background_description {
        Some(description) => " | "@ + description,
        None => Seq::empty(),
    };
    let triggers = if snapshot.background_triggers.len() == 0 {
        Seq::empty()
    } else {
        " | triggers: "@ + join(snapshot.background_triggers, ", "@)
    };
    let head = "- session_id "@ + decimal_int(snapshot.process_id as int) + ": "@ + state_text(
        snapshot,
    ) + " | "@ + command_text(snapshot.command) + " (cwd: "@ + snapshot.cwd + ")"@;
    assert(state_text(snapshot) == told_state(snapshot));
    let rest = started + described + triggers;
    assert(head + started + described + triggers =~= head + rest);
    assert(snapshot_line(snapshot, log_path, now_ms) == head + rest + " | log: "@ + log_path);
    let log = " | log: "@ + log_path;
    let line = snapshot_line(snapshot, log_path, now_ms);
    assert(line =~= (head + started) + described + (triggers + log));
    assert(line =~= (head + started + described) + triggers + log);
    assert(line =~= head + started + (described + triggers + log));
    if snapshot.started_at_unix_ms <= 0 && snapshot.background_description is None
        && snapshot.background_triggers.len() == 0 {
        assert(head + rest =~= head);
    }
}

/// The list has a line for every live job, then one for every completed job, in
/// order, each under its heading.
pub proof fn lemma_list_has_every_job(
    live: Seq<ListedView>,
    completed: Seq<ListedView>,
    now_ms: i64,
)
    ensures
        exists|parts: Seq<Seq<char>>|
            {
                &&& list_text(live, completed, now_ms) == #[trigger] join(parts, "\n"@)
                &&& parts.len() == 1 + live.len() + (if completed.len() == 0 {
                    0
                } else {
                    1 + completed.len()
                })
                &&& live.len() > 0 ==> parts[0] == decimal(live.len()) + " live session(s):"@
                &&& forall|k: int|
                    0 < k <= live.len() ==> #[trigger] parts[k] == snapshot_line(
                        live[k - 1].0,
                        live[k - 1].1,
                        now_ms,
                    )
                &&& completed.len() > 0 ==> parts[1 + live.len() as int]
                    == "Recently completed:"@
                &&& forall|k: int|
                    live.len() + 2 <= k < parts.len() ==> #[trigger] parts[k] == snapshot_line(
                        completed[k - live.len() - 2].0,
                        completed[k - live.len() - 2].1,
                        now_ms,
                    )
            },
{
    let a = if live.len() == 0 {
        seq![
            "No live exec sessions. Finished sessions leave durable logs; use `status`, `tail`, or `read` with a session_id to inspect one."@,
        ]
    } else {
        seq![decimal(live.len()) + " live session(s):"@] + Seq::new(
            live.len(),
            |i: int| snapshot_line(live[i].0, live[i].1, now_ms),
        )
    };
    let b = if completed.len() == 0 {
        Seq::empty()
    } else {
        seq!["Recently completed:"@] + Seq::new(
            completed.len(),
            |i: int| snapshot_line(completed[i].0, completed[i].1, now_ms),
        )
    };
    let parts = a + b;
    if live.len() > 0 {
        assert(a =~= seq![decimal(live.len()) + " live session(s):"@]
            + crate::job_observe::snapshot_lines(live, now_ms));
    }
    if completed.len() > 0 {
        assert(b =~= seq!["Recently completed:"@] + crate::job_observe::snapshot_lines(
            completed,
            now_ms,
        ));
    }
    assert(list_text(live, completed, now_ms) == join(parts, "\n"@));
}

/// What is told names the session, and tells apart whether it was ended, and
/// whether its log is still there.
pub proof fn lemma_messages_name_the_session(
    session_id: i32,
    log_path: Seq<char>,
    timeout_ms: u64,
    tail: Option<Seq<char>>,
    code: Option<i32>,
)
    ensures
        cancel_text(session_id, true, log_path) == "terminated session "@ + decimal_int(
            session_id as int,
        ) + ". Its log file is kept: "@ + log_path,
        cancel_text(session_id, false, log_path) == "no live session "@ + decimal_int(
            session_id as int,
        ) + " to terminate (it may have already exited)."@,
        has_prefix(
            missing_text(session_id, log_path, true),
            "session "@ + decimal_int(session_id as int) + " is not tracked anymore"@,
        ),
        has_prefix(
            missing_text(session_id, log_path, false),
            "no session "@ + decimal_int(session_id as int) + " in this thread"@,
        ),
        wait_text(JobWaitOutcome::Unknown, session_id, timeout_ms, log_path, true, tail)
            == missing_text(session_id, log_path, true),
        wait_text(JobWaitOutcome::Unknown, session_id, timeout_ms, log_path, false, tail)
            == missing_text(session_id, log_path, false),
        wait_text(JobWaitOutcome::Interrupted, session_id, timeout_ms, log_path, true, tail)
            == "wait for session "@ + decimal_int(session_id as int) + " was interrupted."@,
        has_prefix(
            wait_text(JobWaitOutcome::TimedOut, session_id, timeout_ms, log_path, true, tail),
            "session "@ + decimal_int(session_id as int) + " is still running after "@ + decimal(
                timeout_ms as nat,
            ) + " ms; "@,
        ),
        has_prefix(
            wait_text(
                JobWaitOutcome::Exited { exit_code: code },
                session_id,
                timeout_ms,
                log_path,
                true,
                tail,
            ),
            "session "@ + decimal_int(session_id as int) + " exited with code "@ + (match code {
                Some(code) => decimal_int(code as int),
                None => "unknown"@,
            }) + "."@,
        ),
        tail matches Some(end) ==> wait_text(
            JobWaitOutcome::Exited { exit_code: code },
            session_id,
            timeout_ms,
            log_path,
            true,
            tail,
        ) == "session "@ + decimal_int(session_id as int) + " exited with code "@ + (match code {
            Some(code) => decimal_int(code as int),
            None => "unknown"@,
        }) + "."@ + ("\nRecent output ("@ + log_path + "):\n"@ + end),
{
    let id = decimal_int(session_id as int);
    reveal_strlit(
        " is not tracked anymore (it already exited or was cancelled); its exit was reported as a job event. Its durable log remains: ",
    );
    reveal_strlit(" is not tracked anymore");
    reveal_strlit(
        " in this thread: nothing is tracked under that id and no log file exists at ",
    );
    reveal_strlit(" in this thread");
    reveal_strlit(" ms; wait again or tail its log.");
    reveal_strlit(" ms; ");
    lemma_prefix("session "@ + id, " is not tracked anymore"@, missing_text(session_id, log_path, true));
    lemma_prefix("no session "@ + id, " in this thread"@, missing_text(session_id, log_path, false));
    let waited = wait_text(
        JobWaitOutcome::TimedOut,
        session_id,
        timeout_ms,
        log_path,
        true,
        tail,
    );
    lemma_prefix(
        "session "@ + id + " is still running after "@ + decimal(timeout_ms as nat),
        " ms; "@,
        waited,
    );
    let exited = wait_text(
        JobWaitOutcome::Exited { exit_code: code },
        session_id,
        timeout_ms,
        log_path,
        true,
        tail,
    );
    let head = "session "@ + id + " exited with code "@ + (match code {
        Some(code) => decimal_int(code as int),
        None => "unknown"@,
    });
    lemma_prefix(head, "."@, exited);
}

proof fn lemma_prefix(a: Seq<char>, b: Seq<char>, s: Seq<char>)
    requires
        a.len() + b.len() <= s.len(),
        forall|i: int| 0 <= i < a.len() ==> #[trigger] a[i] == s[i],
        forall|i: int| 0 <= i < b.len() ==> #[trigger] b[i] == s[a.len() + i],
    ensures
        has_prefix(s, a + b),
{
    let p = a + b;
    assert forall|i: int| 0 <= i < p.len() implies #[trigger] p[i] == s[i] by {
        if i >= a.len() {
            assert(p[i] == b[i - a.len()]);
        } else {
            assert(p[i] == a[i]);
        }
    }
    assert(s.subrange(0, p.len() as int) =~= p);
}

/// A wait ends with an exit code exactly where that code was archived for a
/// session that is no longer live, or was read after the exit; it is unknown
/// exactly where nothing is known of the session.
pub proof fn lemma_wait_tells_what_happened(event: WaitEvent)
    ensures
        forall|exit_code: Option<i32>|
            #[trigger] wait_after(event) == WaitStep::Done(JobWaitOutcome::Exited { exit_code })
                <==> (event == (WaitEvent::Looked { live: None, archived: Some(exit_code) })
                || event == (WaitEvent::ExitCode { code: exit_code, paused: true }) || (event == (
            WaitEvent::ExitCode { code: exit_code, paused: false }) && exit_code is Some)),
        wait_after(event) == WaitStep::Done(JobWaitOutcome::Unknown) <==> event == (
        WaitEvent::Looked { live: None, archived: None }),
        wait_after(event) == WaitStep::Done(JobWaitOutcome::TimedOut) <==> event
            == WaitEvent::TimedOut,
        wait_after(event) == WaitStep::Done(JobWaitOutcome::Interrupted) <==> event
            == WaitEvent::Interrupted,
        wait_after(event) == WaitStep::Await <==> (event matches WaitEvent::Looked {
            live,
            archived,
        } && live == Some(false)),
        wait_after(event) == WaitStep::PauseThenReadExitCode <==> event == (WaitEvent::ExitCode {
            code: None,
            paused: false,
        }),
{
}

/// Archiving a job keeps the jobs of other sessions in their order, puts the job
/// last, and drops the oldest where there are more than sixty-four.
pub proof fn lemma_archive_keeps_others(jobs: Seq<SnapshotView>, job: SnapshotView)
    ensures
        exists|at: Seq<int>, all: Seq<SnapshotView>|
            {
                &&& #[trigger] chooses_others(at, jobs, job.process_id)
                &&& all.len() == at.len() + 1
                &&& forall|j: int| 0 <= j < at.len() ==> all[j] == jobs[#[trigger] at[j]]
                &&& all.last() == job
                &&& all.len() <= 64 ==> archived(jobs, job) == all
                &&& all.len() > 64 ==> archived(jobs, job) == #[trigger] all.skip(all.len() - 64)
            },
{
    let at = lemma_others(jobs, job.process_id);
    let all = other_jobs(jobs, job.process_id).push(job);
    assert forall|j: int| 0 <= j < at.len() implies all[j] == jobs[#[trigger] at[j]] by {
        assert(all[j] == other_jobs(jobs, job.process_id)[j]);
    }
    let _ = all.skip(all.len() - 64);
}

/// Whether the chosen positions are those of the jobs of other sessions.
pub open spec fn chooses_others(at: Seq<int>, jobs: Seq<SnapshotView>, process_id: i32) -> bool {
    is_choice(at, jobs.len() as int, |i: int| jobs[i].process_id != process_id)
}

proof fn lemma_others(jobs: Seq<SnapshotView>, process_id: i32) -> (at: Seq<int>)
    ensures
        chooses_others(at, jobs, process_id),
        other_jobs(jobs, process_id).len() == at.len(),
        forall|j: int|
            0 <= j < at.len() ==> #[trigger] other_jobs(jobs, process_id)[j] == jobs[at[j]],
    decreases jobs.len(),
{
    let chosen = |i: int| jobs[i].process_id != process_id;
    if jobs.len() == 0 {
        lemma_no_choice(chosen);
        Seq::empty()
    } else {
        let rest = jobs.drop_last();
        let n = rest.len() as int;
        let at = lemma_others(rest, process_id);
        lemma_same_choice(at, n, |i: int| rest[i].process_id != process_id, chosen);
        lemma_choice_step(at, n, chosen);
        let after = other_jobs(jobs, process_id);
        let more = if chosen(n) {
            at.push(n)
        } else {
            at
        };
        assert forall|j: int| 0 <= j < more.len() implies #[trigger] after[j] == jobs[more[j]] by {
            if j < at.len() {
                assert(other_jobs(rest, process_id)[j] == rest[at[j]]);
            }
        }
        more
    }
}

} // verus!
