//! Model-facing observation of background exec sessions.
//!
//! `job_observe` gives the model list, status, tail, read and wait primitives
//! that run entirely in the harness; `job_cancel` terminates a session.
//! Together they replace a polling loop: one bounded tool call per state change
//! instead of a model turn per peek.

use vstd::prelude::*;
use vstd::utf8::encode_utf8;

use crate::decimal::{decimal, decimal_int, push_i32, push_u64, push_usize};
use crate::job_tools::{
    cancel_tool, create_job_cancel_tool, create_job_observe_tool, observe_tool,
    JOB_CANCEL_TOOL_NAME, JOB_OBSERVE_TOOL_NAME,
};
use crate::lists::keep_last;
use crate::observation::{JobSnapshot, JobWaitOutcome, SnapshotView};
use crate::split::{join, join_chars, join_strings, lines, str_lines};
use crate::text::{
    char_texts, from_chars, lemma_texts_push, opt_text, owned, sub_chars, texts, to_chars,
};
use crate::tool_schema::ToolDefinition;
use crate::utf8_stream::{from_utf8_lossy, lossy_text};

verus! {

pub const DEFAULT_WAIT_TIMEOUT_MS: u64 = 30_000;

pub const MIN_WAIT_TIMEOUT_MS: u64 = 1_000;

pub const MAX_WAIT_TIMEOUT_MS: u64 = 600_000;

pub const DEFAULT_TAIL_LINES: usize = 50;

pub const MAX_TAIL_LINES: usize = 400;

pub const DEFAULT_READ_LIMIT_BYTES: u64 = 8_192;

pub const MAX_READ_LIMIT_BYTES: u64 = 16_384;

/// Upper bound on bytes pulled from a log to extract a line tail.
pub const TAIL_SCAN_BYTES: u64 = 65_536;

pub const WAIT_RESULT_TAIL_LINES: usize = 20;

pub const RECENT_COMPLETED_IN_LIST: usize = 8;

/// Most characters of a command that are shown.
pub const MAX_COMMAND_CHARS: usize = 120;

/// What the model asks for.
#[derive(Clone, Copy, Debug, PartialEq, Eq, Structural)]
pub enum JobObserveAction {
    List,
    Status,
    Tail,
    Read,
    Wait,
}

/// The arguments of the tool that observes sessions.
#[derive(Clone, Copy, Debug, PartialEq, Eq, Structural)]
pub struct JobObserveArgs {
    pub action: JobObserveAction,
    pub session_id: Option<i32>,
    pub timeout_ms: Option<u64>,
    pub tail_lines: Option<usize>,
    pub offset_bytes: Option<u64>,
    pub limit_bytes: Option<u64>,
}

/// What is to be observed, within the bounds.
#[derive(Clone, Copy, Debug, PartialEq, Eq, Structural)]
pub enum ObservePlan {
    List { recent_completed: usize },
    Status { session_id: i32 },
    Tail { session_id: i32, lines: usize },
    Read { session_id: i32, offset: u64, limit: u64 },
    Wait { session_id: i32, timeout_ms: u64 },
}

/// `value` within bounds; a default where there is none.
pub open spec fn bounded(value: Option<u64>, default: u64, least: u64, most: u64) -> u64 {
    let wanted = match value {
        Some(value) => value,
        None => default,
    };
    if wanted < least {
        least
    } else if wanted > most {
        most
    } else {
        wanted
    }
}

/// The number of lines that are asked for, within bounds.
pub open spec fn bounded_lines(value: Option<usize>) -> usize {
    let wanted = match value {
        Some(value) => value,
        None => DEFAULT_TAIL_LINES,
    };
    if wanted < 1 {
        1
    } else if wanted > MAX_TAIL_LINES {
        MAX_TAIL_LINES
    } else {
        wanted
    }
}

/// What the arguments ask for; none where a session is needed and not given.
pub open spec fn planned(args: JobObserveArgs) -> Option<ObservePlan> {
    match (args.action, args.session_id) {
        (JobObserveAction::List, _) => Some(
            ObservePlan::List { recent_completed: RECENT_COMPLETED_IN_LIST },
        ),
        (_, None) => None,
        (JobObserveAction::Status, Some(session_id)) => Some(ObservePlan::Status { session_id }),
        (JobObserveAction::Tail, Some(session_id)) => Some(
            ObservePlan::Tail { session_id, lines: bounded_lines(args.tail_lines) },
        ),
        (JobObserveAction::Read, Some(session_id)) => Some(
            ObservePlan::Read {
                session_id,
                offset: match args.offset_bytes {
                    Some(offset) => offset,
                    None => 0,
                },
                limit: bounded(
                    args.limit_bytes,
                    DEFAULT_READ_LIMIT_BYTES,
                    1,
                    MAX_READ_LIMIT_BYTES,
                ),
            },
        ),
        (JobObserveAction::Wait, Some(session_id)) => Some(
            ObservePlan::Wait {
                session_id,
                timeout_ms: bounded(
                    args.timeout_ms,
                    DEFAULT_WAIT_TIMEOUT_MS,
                    MIN_WAIT_TIMEOUT_MS,
                    MAX_WAIT_TIMEOUT_MS,
                ),
            },
        ),
    }
}

fn clamp(value: Option<u64>, default: u64, least: u64, most: u64) -> (r: u64)
    ensures
        r == bounded(value, default, least, most),
{
    let wanted = match value {
        Some(value) => value,
        None => default,
    };
    if wanted < least {
        least
    } else if wanted > most {
        most
    } else {
        wanted
    }
}

/// The tool that observes sessions.
pub struct JobObserveHandler;

/// The tool that ends a session.
pub struct JobCancelHandler;

impl JobObserveHandler {
    /// The tool's name.
    pub fn tool_name(&self) -> (r: &'static str)
        ensures
            r@ == "job_observe"@,
    {
        JOB_OBSERVE_TOOL_NAME
    }

    /// The tool's definition.
    pub fn spec(&self) -> (r: ToolDefinition)
        ensures
            r@ == observe_tool(),
    {
        create_job_observe_tool()
    }

    /// Decides what the arguments ask for.
    pub fn plan(&self, args: JobObserveArgs) -> (r: Result<ObservePlan, &'static str>)
        ensures
            match r {
                Ok(plan) => planned(args) == Some(plan),
                Err(message) => planned(args) is None && message@
                    == "session_id is required for this action"@,
            },
    {
        match args.action {
            JobObserveAction::List => {
                return Ok(ObservePlan::List { recent_completed: RECENT_COMPLETED_IN_LIST });
            },
            _ => {},
        }
        let session_id = match args.session_id {
            Some(session_id) => session_id,
            None => {
                return Err("session_id is required for this action");
            },
        };
        match args.action {
            JobObserveAction::List => Ok(
                ObservePlan::List { recent_completed: RECENT_COMPLETED_IN_LIST },
            ),
            JobObserveAction::Status => Ok(ObservePlan::Status { session_id }),
            JobObserveAction::Tail => {
                let wanted: usize = match args.tail_lines {
                    Some(lines) => lines,
                    None => DEFAULT_TAIL_LINES,
                };
                let lines: usize = if wanted < 1 {
                    1
                } else if wanted > MAX_TAIL_LINES {
                    MAX_TAIL_LINES
                } else {
                    wanted
                };
                Ok(ObservePlan::Tail { session_id, lines })
            },
            JobObserveAction::Read => {
                let offset: u64 = match args.offset_bytes {
                    Some(offset) => offset,
                    None => 0,
                };
                let limit = clamp(
                    args.limit_bytes,
                    DEFAULT_READ_LIMIT_BYTES,
                    1,
                    MAX_READ_LIMIT_BYTES,
                );
                Ok(ObservePlan::Read { session_id, offset, limit })
            },
            JobObserveAction::Wait => {
                let timeout_ms = clamp(
                    args.timeout_ms,
                    DEFAULT_WAIT_TIMEOUT_MS,
                    MIN_WAIT_TIMEOUT_MS,
                    MAX_WAIT_TIMEOUT_MS,
                );
                Ok(ObservePlan::Wait { session_id, timeout_ms })
            },
        }
    }
}

/// What is told of an attempt to end a session.
pub open spec fn cancel_text(session_id: i32, terminated: bool, log_path: Seq<char>) -> Seq<char> {
    if terminated {
        "terminated session "@ + decimal_int(session_id as int) + ". Its log file is kept: "@
            + log_path
    } else {
        "no live session "@ + decimal_int(session_id as int)
            + " to terminate (it may have already exited)."@
    }
}

impl JobCancelHandler {
    /// The tool's name.
    pub fn tool_name(&self) -> (r: &'static str)
        ensures
            r@ == "job_cancel"@,
    {
        JOB_CANCEL_TOOL_NAME
    }

    /// The tool's definition.
    pub fn spec(&self) -> (r: ToolDefinition)
        ensures
            r@ == cancel_tool(),
    {
        create_job_cancel_tool()
    }

    /// Renders what is told of an attempt to end a session.
    pub fn render(&self, session_id: i32, terminated: bool, log_path: &str) -> (r: String)
        ensures
            r@ == cancel_text(session_id, terminated, log_path@),
    {
        if terminated {
            let mut r = owned("terminated session ");
            push_i32(&mut r, session_id);
            r.append(". Its log file is kept: ");
            r.append(log_path);
            r
        } else {
            let mut r = owned("no live session ");
            push_i32(&mut r, session_id);
            r.append(" to terminate (it may have already exited).");
            r
        }
    }
}

/// A job with the path of its log.
pub struct ListedJob {
    pub snapshot: JobSnapshot,
    pub log_path: String,
}

/// The texts of a [`ListedJob`].
pub type ListedView = (SnapshotView, Seq<char>);

/// The views of a list of jobs.
pub open spec fn listed_views(jobs: Seq<ListedJob>) -> Seq<ListedView> {
    Seq::new(jobs.len(), |i: int| (jobs[i].snapshot@, jobs[i].log_path@))
}

/// A stretch of time in whole seconds, minutes or hours.
pub open spec fn elapsed_text(elapsed_ms: int) -> Seq<char> {
    let seconds: nat = if elapsed_ms < 0 {
        0
    } else {
        (elapsed_ms / 1_000) as nat
    };
    if seconds < 120 {
        decimal(seconds) + "s"@
    } else if seconds < 7_200 {
        decimal(seconds / 60) + "m"@
    } else {
        decimal(seconds / 3_600) + "h"@
    }
}

/// A command as it is shown.
pub open spec fn command_text(command: Seq<char>) -> Seq<char> {
    if command.len() <= MAX_COMMAND_CHARS {
        command
    } else {
        command.take(MAX_COMMAND_CHARS as int) + "…"@
    }
}

/// The state of a job.
pub open spec fn state_text(snapshot: SnapshotView) -> Seq<char> {
    if snapshot.running {
        "running"@
    } else {
        match snapshot.exit_code {
            Some(code) => "exited ("@ + decimal_int(code as int) + ")"@,
            None => "exited"@,
        }
    }
}

/// The line of a job.
pub open spec fn snapshot_line(snapshot: SnapshotView, log_path: Seq<char>, now_ms: i64) -> Seq<
    char,
> {
    "- session_id "@ + decimal_int(snapshot.process_id as int) + ": "@ + state_text(snapshot)
        + " | "@ + command_text(snapshot.command) + " (cwd: "@ + snapshot.cwd + ")"@ + (if
        snapshot.started_at_unix_ms > 0 {
        " | started "@ + elapsed_text(now_ms - snapshot.started_at_unix_ms) + " ago"@
    } else {
        Seq::empty()
    }) + (match snapshot.background_description {
        Some(description) => " | "@ + description,
        None => Seq::empty(),
    }) + (if snapshot.background_triggers.len() == 0 {
        Seq::empty()
    } else {
        " | triggers: "@ + join(snapshot.background_triggers, ", "@)
    }) + " | log: "@ + log_path
}

/// The lines of jobs.
pub open spec fn snapshot_lines(jobs: Seq<ListedView>, now_ms: i64) -> Seq<Seq<char>> {
    Seq::new(jobs.len(), |i: int| snapshot_line(jobs[i].0, jobs[i].1, now_ms))
}

/// The list of live and recently completed jobs.
pub open spec fn list_text(live: Seq<ListedView>, completed: Seq<ListedView>, now_ms: i64) -> Seq<
    char,
> {
    let first: Seq<Seq<char>> = if live.len() == 0 {
        seq![
            "No live exec sessions. Finished sessions leave durable logs; use `status`, `tail`, or `read` with a session_id to inspect one."@,
        ]
    } else {
        seq![decimal(live.len()) + " live session(s):"@] + snapshot_lines(live, now_ms)
    };
    let second: Seq<Seq<char>> = if completed.len() == 0 {
        Seq::empty()
    } else {
        seq!["Recently completed:"@] + snapshot_lines(completed, now_ms)
    };
    join(first + second, "\n"@)
}

/// What is told of a session that is not tracked.
pub open spec fn missing_text(session_id: i32, log_path: Seq<char>, log_exists: bool) -> Seq<char> {
    if log_exists {
        "session "@ + decimal_int(session_id as int)
            + " is not tracked anymore (it already exited or was cancelled); its exit was reported as a job event. Its durable log remains: "@
            + log_path + " — use `tail` or `read` to inspect it."@
    } else {
        "no session "@ + decimal_int(session_id as int)
            + " in this thread: nothing is tracked under that id and no log file exists at "@
            + log_path + "."@
    }
}

/// The status of a job, with the size of its log where that is known.
pub open spec fn status_text(
    snapshot: SnapshotView,
    log_path: Seq<char>,
    log_size: Option<u64>,
    now_ms: i64,
) -> Seq<char> {
    snapshot_line(snapshot, log_path, now_ms) + " ("@ + (match log_size {
        Some(size) => decimal(size as nat) + " bytes"@,
        None => "not created yet"@,
    }) + ")"@
}

/// The recent output that a wait ends with.
pub open spec fn recent_output(log_path: Seq<char>, tail: Option<Seq<char>>) -> Seq<char> {
    match tail {
        Some(tail) => "\nRecent output ("@ + log_path + "):\n"@ + tail,
        None => Seq::empty(),
    }
}

/// What is told at the end of a wait.
pub open spec fn wait_text(
    outcome: JobWaitOutcome,
    session_id: i32,
    timeout_ms: u64,
    log_path: Seq<char>,
    log_exists: bool,
    tail: Option<Seq<char>>,
) -> Seq<char> {
    match outcome {
        JobWaitOutcome::Exited { exit_code } => "session "@ + decimal_int(session_id as int)
            + " exited with code "@ + (match exit_code {
            Some(code) => decimal_int(code as int),
            None => "unknown"@,
        }) + "."@ + recent_output(log_path, tail),
        JobWaitOutcome::TimedOut => "session "@ + decimal_int(session_id as int)
            + " is still running after "@ + decimal(timeout_ms as nat)
            + " ms; wait again or tail its log."@ + recent_output(log_path, tail),
        JobWaitOutcome::Interrupted => "wait for session "@ + decimal_int(session_id as int)
            + " was interrupted."@,
        JobWaitOutcome::Unknown => missing_text(session_id, log_path, log_exists),
    }
}

/// The last lines of a text.
pub open spec fn last_lines(text: Seq<char>, n: nat) -> Seq<char> {
    join(keep_last(lines(text), n), "\n"@)
}

/// The lesser of two numbers.
pub open spec fn least(a: int, b: int) -> int {
    if a <= b {
        a
    } else {
        b
    }
}

/// The bytes of a log from an offset on, at most so many.
pub open spec fn log_window(contents: Seq<u8>, offset: int, limit: int) -> Seq<u8> {
    let start = least(offset, contents.len() as int);
    contents.subrange(start, least(start + limit, contents.len() as int))
}

/// Where the scan for the last lines of a log begins.
pub open spec fn tail_offset(total: int) -> int {
    if total <= TAIL_SCAN_BYTES {
        0
    } else {
        total - TAIL_SCAN_BYTES
    }
}

/// What is told of the last lines of a log.
pub open spec fn tail_text(
    log_path: Seq<char>,
    total_bytes: u64,
    line_count: usize,
    tail: Seq<char>,
) -> Seq<char> {
    "log: "@ + log_path + " ("@ + decimal(total_bytes as nat) + " bytes total), last "@ + decimal(
        line_count as nat,
    ) + " lines:\n"@ + tail
}

/// One number after another, as far as the type goes.
pub open spec fn saturated(a: u64, b: int) -> nat {
    if a + b > u64::MAX {
        u64::MAX as nat
    } else {
        (a + b) as nat
    }
}

/// What is told of a range of a log.
pub open spec fn read_text(
    log_path: Seq<char>,
    offset: u64,
    total_bytes: u64,
    chunk: Seq<char>,
) -> Seq<char> {
    "log: "@ + log_path + ", bytes "@ + decimal(offset as nat) + ".."@ + decimal(
        saturated(offset, encode_utf8(chunk).len() as int),
    ) + " of "@ + decimal(total_bytes as nat) + ":\n"@ + chunk
}

/// Renders a stretch of time.
pub fn format_elapsed(elapsed_ms: i64) -> (r: String)
    ensures
        r@ == elapsed_text(elapsed_ms as int),
{
    let millis: u64 = if elapsed_ms < 0 {
        0
    } else {
        elapsed_ms as u64
    };
    let seconds: u64 = millis / 1_000;
    let mut r = String::new();
    assert(r@ =~= Seq::empty());
    if seconds < 120 {
        push_u64(&mut r, seconds);
        assert(r@ =~= decimal(seconds as nat));
        r.append("s");
    } else if seconds < 7_200 {
        push_u64(&mut r, seconds / 60);
        assert(r@ =~= decimal((seconds / 60) as nat));
        r.append("m");
    } else {
        push_u64(&mut r, seconds / 3_600);
        assert(r@ =~= decimal((seconds / 3_600) as nat));
        r.append("h");
    }
    r
}

/// Renders a command.
pub fn truncate_command(command: &str) -> (r: String)
    ensures
        r@ == command_text(command@),
{
    let chars = to_chars(command);
    if chars.len() <= MAX_COMMAND_CHARS {
        return owned(command);
    }
    let prefix = sub_chars(chars.as_slice(), 0, MAX_COMMAND_CHARS);
    assert(prefix@ =~= command@.take(MAX_COMMAND_CHARS as int));
    let mut r = from_chars(prefix.as_slice());
    r.append("…");
    r
}

/// Renders the line of a job.
pub fn render_snapshot_line(snapshot: &JobSnapshot, log_path: &str, now_ms: i64) -> (r: String)
    ensures
        r@ == snapshot_line(snapshot@, log_path@, now_ms),
{
    let mut line = owned("- session_id ");
    push_i32(&mut line, snapshot.process_id);
    line.append(": ");
    let ghost head = line@;
    if snapshot.running {
        line.append("running");
    } else {
        match snapshot.exit_code {
            Some(code) => {
                line.append("exited (");
                push_i32(&mut line, code);
                line.append(")");
            },
            None => {
                line.append("exited");
            },
        }
    }
    assert(line@ =~= head + state_text(snapshot@));
    line.append(" | ");
    line.append(truncate_command(snapshot.command.as_str()).as_str());
    line.append(" (cwd: ");
    line.append(snapshot.cwd.as_str());
    line.append(")");
    let ghost a = line@;
    if snapshot.started_at_unix_ms > 0 {
        let elapsed_ms: i64 = if now_ms < snapshot.started_at_unix_ms {
            0
        } else {
            now_ms - snapshot.started_at_unix_ms
        };
        line.append(" | started ");
        line.append(format_elapsed(elapsed_ms).as_str());
        line.append(" ago");
        assert(line@ =~= a + (" | started "@ + elapsed_text(now_ms - snapshot.started_at_unix_ms)
            + " ago"@));
    } else {
        assert(line@ =~= a + Seq::empty());
    }
    let ghost b = line@;
    match &snapshot.background_description {
        Some(description) => {
            line.append(" | ");
            line.append(description.as_str());
            assert(line@ =~= b + (" | "@ + description@));
        },
        None => {
            assert(line@ =~= b + Seq::empty());
        },
    }
    let ghost c = line@;
    assert(texts(snapshot.background_triggers@).len() == snapshot.background_triggers.len());
    if snapshot.background_triggers.len() > 0 {
        line.append(" | triggers: ");
        line.append(join_strings(&snapshot.background_triggers, ", ").as_str());
        assert(line@ =~= c + (" | triggers: "@ + join(snapshot@.background_triggers, ", "@)));
    } else {
        assert(line@ =~= c + Seq::empty());
    }
    line.append(" | log: ");
    line.append(log_path);
    line
}

fn push_snapshot_lines(out: &mut Vec<String>, jobs: &Vec<ListedJob>, now_ms: i64)
    ensures
        texts(final(out)@) == texts(old(out)@) + snapshot_lines(listed_views(jobs@), now_ms),
{
    let ghost start = texts(out@);
    let ghost goal = snapshot_lines(listed_views(jobs@), now_ms);
    let mut i: usize = 0;
    assert(start + goal.take(0) =~= start);
    while i < jobs.len()
        invariant
            i <= jobs.len(),
            goal == snapshot_lines(listed_views(jobs@), now_ms),
            texts(out@) == start + goal.take(i as int),
        decreases jobs.len() - i,
    {
        let line = render_snapshot_line(&jobs[i].snapshot, jobs[i].log_path.as_str(), now_ms);
        proof {
            lemma_texts_push(out@, line);
            assert(line@ == goal[i as int]);
        }
        out.push(line);
        assert(texts(out@) =~= start + goal.take(i + 1));
        i += 1;
    }
    assert(goal.take(i as int) =~= goal);
}

/// Renders the list of live and recently completed jobs.
pub fn render_list(live: &Vec<ListedJob>, completed: &Vec<ListedJob>, now_ms: i64) -> (r: String)
    ensures
        r@ == list_text(listed_views(live@), listed_views(completed@), now_ms),
{
    let mut out: Vec<String> = Vec::new();
    if live.len() == 0 {
        out.push(
            owned(
                "No live exec sessions. Finished sessions leave durable logs; use `status`, `tail`, or `read` with a session_id to inspect one.",
            ),
        );
        assert(texts(out@) =~= seq![
            "No live exec sessions. Finished sessions leave durable logs; use `status`, `tail`, or `read` with a session_id to inspect one."@,
        ]);
    } else {
        let mut head = String::new();
        assert(head@ =~= Seq::empty());
        push_usize(&mut head, live.len());
        assert(head@ =~= decimal(live@.len()));
        head.append(" live session(s):");
        out.push(head);
        assert(texts(out@) =~= seq![decimal(live@.len()) + " live session(s):"@]);
        push_snapshot_lines(&mut out, live, now_ms);
    }
    let ghost first = texts(out@);
    if completed.len() > 0 {
        let head = owned("Recently completed:");
        proof {
            lemma_texts_push(out@, head);
        }
        out.push(head);
        push_snapshot_lines(&mut out, completed, now_ms);
        assert(texts(out@) =~= first + (seq!["Recently completed:"@] + snapshot_lines(
            listed_views(completed@),
            now_ms,
        )));
    } else {
        assert(texts(out@) =~= first + Seq::<Seq<char>>::empty());
    }
    join_strings(&out, "\n")
}

/// Renders what is told of a session that is not tracked.
pub fn missing_log_message(session_id: i32, log_path: &str, log_exists: bool) -> (r: String)
    ensures
        r@ == missing_text(session_id, log_path@, log_exists),
{
    if log_exists {
        let mut r = owned("session ");
        push_i32(&mut r, session_id);
        r.append(
            " is not tracked anymore (it already exited or was cancelled); its exit was reported as a job event. Its durable log remains: ",
        );
        r.append(log_path);
        r.append(" — use `tail` or `read` to inspect it.");
        r
    } else {
        let mut r = owned("no session ");
        push_i32(&mut r, session_id);
        r.append(
            " in this thread: nothing is tracked under that id and no log file exists at ",
        );
        r.append(log_path);
        r.append(".");
        r
    }
}

/// Renders the status of a session: the live job comes before the completed
/// one, so that exit codes stay answerable after a process is reaped.
pub fn render_status(
    live: &Option<JobSnapshot>,
    completed: &Option<JobSnapshot>,
    session_id: i32,
    log_path: &str,
    log_size: Option<u64>,
    log_exists: bool,
    now_ms: i64,
) -> (r: String)
    ensures
        match (*live, *completed) {
            (Some(job), _) => r@ == status_text(job@, log_path@, log_size, now_ms),
            (None, Some(job)) => r@ == status_text(job@, log_path@, log_size, now_ms),
            (None, None) => r@ == missing_text(session_id, log_path@, log_exists),
        },
{
    let snapshot = match live {
        Some(snapshot) => snapshot,
        None => match completed {
            Some(snapshot) => snapshot,
            None => {
                return missing_log_message(session_id, log_path, log_exists);
            },
        },
    };
    let mut line = render_snapshot_line(snapshot, log_path, now_ms);
    line.append(" (");
    let ghost head = line@;
    match log_size {
        Some(size) => {
            push_u64(&mut line, size);
            line.append(" bytes");
            assert(line@ =~= head + (decimal(size as nat) + " bytes"@));
        },
        None => {
            line.append("not created yet");
        },
    }
    line.append(")");
    line
}

/// Renders what is told at the end of a wait.
pub fn render_wait(
    outcome: JobWaitOutcome,
    session_id: i32,
    timeout_ms: u64,
    log_path: &str,
    log_exists: bool,
    tail: &Option<String>,
) -> (r: String)
    ensures
        r@ == wait_text(outcome, session_id, timeout_ms, log_path@, log_exists, opt_text(*tail)),
{
    let mut recent = String::new();
    assert(recent@ =~= Seq::empty());
    match tail {
        Some(tail) => {
            recent = owned("\nRecent output (");
            recent.append(log_path);
            recent.append("):\n");
            recent.append(tail.as_str());
        },
        None => {},
    }
    match outcome {
        JobWaitOutcome::Exited { exit_code } => {
            let mut r = owned("session ");
            push_i32(&mut r, session_id);
            r.append(" exited with code ");
            match exit_code {
                Some(code) => push_i32(&mut r, code),
                None => r.append("unknown"),
            }
            r.append(".");
            r.append(recent.as_str());
            r
        },
        JobWaitOutcome::TimedOut => {
            let mut r = owned("session ");
            push_i32(&mut r, session_id);
            r.append(" is still running after ");
            push_u64(&mut r, timeout_ms);
            r.append(" ms; wait again or tail its log.");
            r.append(recent.as_str());
            r
        },
        JobWaitOutcome::Interrupted => {
            let mut r = owned("wait for session ");
            push_i32(&mut r, session_id);
            r.append(" was interrupted.");
            r
        },
        JobWaitOutcome::Unknown => missing_log_message(session_id, log_path, log_exists),
    }
}

/// Renders what is told of the last lines of a log.
pub fn render_tail(
    session_id: i32,
    line_count: usize,
    log_path: &str,
    log_exists: bool,
    tail: &Option<(String, u64)>,
) -> (r: String)
    ensures
        match *tail {
            Some(read) => r@ == tail_text(log_path@, read.1, line_count, read.0@),
            None => r@ == missing_text(session_id, log_path@, log_exists),
        },
{
    match tail {
        Some(read) => {
            let mut r = owned("log: ");
            r.append(log_path);
            r.append(" (");
            push_u64(&mut r, read.1);
            r.append(" bytes total), last ");
            push_usize(&mut r, line_count);
            r.append(" lines:\n");
            r.append(read.0.as_str());
            r
        },
        None => missing_log_message(session_id, log_path, log_exists),
    }
}

/// Renders what is told of a range of a log.
pub fn render_read(
    session_id: i32,
    offset: u64,
    log_path: &str,
    log_exists: bool,
    range: &Option<(String, u64)>,
) -> (r: String)
    ensures
        match *range {
            Some(read) => r@ == read_text(log_path@, offset, read.1, read.0@),
            None => r@ == missing_text(session_id, log_path@, log_exists),
        },
{
    match range {
        Some(read) => {
            let len: u64 = read.0.as_str().as_bytes().len() as u64;
            let end: u64 = if offset <= u64::MAX - len {
                offset + len
            } else {
                u64::MAX
            };
            let mut r = owned("log: ");
            r.append(log_path);
            r.append(", bytes ");
            push_u64(&mut r, offset);
            r.append("..");
            push_u64(&mut r, end);
            r.append(" of ");
            push_u64(&mut r, read.1);
            r.append(":\n");
            r.append(read.0.as_str());
            r
        },
        None => missing_log_message(session_id, log_path, log_exists),
    }
}

/// The last lines of a text.
pub fn tail_lines(text: &str, count: usize) -> (r: String)
    ensures
        r@ == last_lines(text@, count as nat),
{
    let parts = str_lines(text);
    let ghost all = char_texts(parts@);
    let mut parts = parts;
    crate::lists::drop_oldest(&mut parts, count);
    assert(char_texts(parts@) =~= keep_last(all, count as nat));
    let line_feed = to_chars("\n");
    let joined = join_chars(&parts, line_feed.as_slice());
    from_chars(joined.as_slice())
}

/// Where to read in a log of a size, for a range from an offset on.
pub fn read_start(total_bytes: u64, offset: u64) -> (r: u64)
    ensures
        r == least(offset as int, total_bytes as int),
{
    if offset <= total_bytes {
        offset
    } else {
        total_bytes
    }
}

/// Where to begin to scan for the last lines of a log of a size.
pub fn tail_scan_start(total_bytes: u64) -> (r: u64)
    ensures
        r == tail_offset(total_bytes as int),
{
    if total_bytes <= TAIL_SCAN_BYTES {
        0
    } else {
        total_bytes - TAIL_SCAN_BYTES
    }
}

/// The text of up to `limit` bytes of a log from `offset` on, and the log's
/// size.
pub fn read_log_range(contents: &[u8], offset: u64, limit: u64) -> (r: (String, u64))
    ensures
        r.0@ == lossy_text(log_window(contents@, offset as int, limit as int)),
        r.1 == contents@.len(),
{
    let total = contents.len();
    let start = read_start(total as u64, offset) as usize;
    let room: usize = total - start;
    let end: usize = if limit < room as u64 {
        start + limit as usize
    } else {
        total
    };
    let window = vstd::slice::slice_subrange(contents, start, end);
    assert(window@ =~= log_window(contents@, offset as int, limit as int));
    (from_utf8_lossy(window), total as u64)
}

/// The last lines of a log, scanning at most [`TAIL_SCAN_BYTES`] from its end,
/// and the log's size.
pub fn read_log_tail(contents: &[u8], count: usize) -> (r: (String, u64))
    ensures
        r.0@ == last_lines(
            lossy_text(
                log_window(
                    contents@,
                    tail_offset(contents@.len() as int),
                    TAIL_SCAN_BYTES as int,
                ),
            ),
            count as nat,
        ),
        r.1 == contents@.len(),
{
    let (chunk, total) = read_log_range(
        contents,
        tail_scan_start(contents.len() as u64),
        TAIL_SCAN_BYTES,
    );
    (tail_lines(chunk.as_str(), count), total)
}

/// Whatever the arguments, what is read, scanned and waited for stays within
/// its bounds.
pub proof fn lemma_plan_bounds(args: JobObserveArgs)
    requires
        planned(args) is Some,
    ensures
        planned(args)->0 matches ObservePlan::Tail { session_id, lines } ==> 1 <= lines
            <= MAX_TAIL_LINES,
        planned(args)->0 matches ObservePlan::Read { session_id, offset, limit } ==> 1 <= limit
            <= MAX_READ_LIMIT_BYTES,
        planned(args)->0 matches ObservePlan::Wait { session_id, timeout_ms } ==>
            MIN_WAIT_TIMEOUT_MS <= timeout_ms <= MAX_WAIT_TIMEOUT_MS,
{
}

/// A range never holds more bytes than were asked for, nor any that are not in
/// the log.
pub proof fn lemma_window_bounds(contents: Seq<u8>, offset: int, limit: int)
    requires
        0 <= offset,
        0 <= limit,
    ensures
        log_window(contents, offset, limit).len() <= limit,
        forall|i: int|
            0 <= i < log_window(contents, offset, limit).len() ==> #[trigger] log_window(
                contents,
                offset,
                limit,
            )[i] == contents[offset + i],
        offset >= contents.len() ==> log_window(contents, offset, limit).len() == 0,
{
}

} // verus!
