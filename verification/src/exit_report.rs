//! What is reported when a command's process has ended.

use vstd::prelude::*;

use crate::decimal::{decimal_int, i32_text};
use crate::lists::keep_last;
use crate::text::{concat_3, from_chars, owned, sub_chars, to_chars};
use crate::trigger_eval::{BackgroundTriggerFired, FiredView};
use crate::utf8_stream::{from_utf8_lossy, lossy_text};

verus! {

/// Most characters of the output that a background event shows.
pub const BACKGROUND_EVENT_OUTPUT_TAIL_MAX_CHARS: usize = 2_000;

/// The output of a command that has ended.
#[derive(Debug, PartialEq, Eq)]
pub struct ExecEndOutput {
    pub exit_code: i32,
    pub stdout: String,
    pub stderr: String,
    pub aggregated_output: String,
    /// Whether the end is reported as a failure.
    pub failed: bool,
}

/// The texts of an [`ExecEndOutput`].
pub struct EndView {
    pub exit_code: i32,
    pub stdout: Seq<char>,
    pub stderr: Seq<char>,
    pub aggregated_output: Seq<char>,
    pub failed: bool,
}

impl View for ExecEndOutput {
    type V = EndView;

    open spec fn view(&self) -> EndView {
        EndView {
            exit_code: self.exit_code,
            stdout: self.stdout@,
            stderr: self.stderr@,
            aggregated_output: self.aggregated_output@,
            failed: self.failed,
        }
    }
}

/// How a process ended.
#[derive(Debug, PartialEq, Eq)]
pub enum ProcessEnd {
    /// It could not be run to its end, for a reason.
    Failed(String),
    /// It ended, with a code where one is known.
    Exited(Option<i32>),
}

/// What is reported of an end: a background event, where one is due, and the
/// end itself.
pub struct ExitReport {
    pub background: Option<BackgroundTriggerFired>,
    pub end: ExecEndOutput,
}

/// The text of a transcript, or the fallback where it is empty.
pub open spec fn aggregated(transcript: Option<Seq<char>>, fallback: Seq<char>) -> Seq<char> {
    match transcript {
        Some(text) => text,
        None => fallback,
    }
}

/// The text of the bytes of a transcript, where there are any.
pub open spec fn transcript_text(transcript: Seq<u8>) -> Option<Seq<char>> {
    if transcript.len() == 0 {
        None
    } else {
        Some(lossy_text(transcript))
    }
}

/// The event of an end.
pub open spec fn exit_event(end: ProcessEnd, transcript: Option<Seq<char>>) -> FiredView {
    match end {
        ProcessEnd::Failed(message) => FiredView {
            trigger: "failure_exit"@,
            reason: "process failed: "@ + message@,
            output_tail: keep_last(
                aggregated(transcript, message@),
                BACKGROUND_EVENT_OUTPUT_TAIL_MAX_CHARS as nat,
            ),
        },
        ProcessEnd::Exited(code) => FiredView {
            trigger: "on_exit"@,
            reason: "process exited with code "@ + decimal_int(
                exit_code_or_unknown(code) as int,
            ),
            output_tail: keep_last(
                aggregated(transcript, Seq::empty()),
                BACKGROUND_EVENT_OUTPUT_TAIL_MAX_CHARS as nat,
            ),
        },
    }
}

/// The exit code that is reported.
pub open spec fn exit_code_or_unknown(code: Option<i32>) -> i32 {
    match code {
        Some(code) => code,
        None => (-1) as i32,
    }
}

/// The output of a command that ended by itself.
pub open spec fn ended_output(text: Seq<char>, exit_code: i32) -> EndView {
    EndView {
        exit_code,
        stdout: text,
        stderr: Seq::empty(),
        aggregated_output: text,
        failed: false,
    }
}

/// The output of a command that failed.
pub open spec fn failed_output(text: Seq<char>, message: Seq<char>) -> EndView {
    EndView {
        exit_code: (-1) as i32,
        stdout: text,
        stderr: message,
        aggregated_output: if text.len() == 0 {
            message
        } else {
            text + "\n"@ + message
        },
        failed: true,
    }
}

/// The output that an end is reported with.
pub open spec fn end_output(end: ProcessEnd, transcript: Option<Seq<char>>) -> EndView {
    match end {
        ProcessEnd::Failed(message) => failed_output(
            aggregated(transcript, Seq::empty()),
            message@,
        ),
        ProcessEnd::Exited(code) => ended_output(
            aggregated(transcript, Seq::empty()),
            exit_code_or_unknown(code),
        ),
    }
}

/// The last characters of a text.
pub fn bounded_tail(text: &str, max_chars: usize) -> (r: String)
    ensures
        r@ == keep_last(text@, max_chars as nat),
{
    let chars = to_chars(text);
    let count = chars.len();
    if count > max_chars {
        let tail = sub_chars(chars.as_slice(), count - max_chars, count);
        assert(tail@ =~= text@.skip(count - max_chars));
        from_chars(tail.as_slice())
    } else {
        owned(text)
    }
}

/// The text of a transcript, where there is any.
pub fn resolve_transcript(transcript: &[u8]) -> (r: Option<String>)
    ensures
        crate::text::opt_text(r) == transcript_text(transcript@),
{
    if transcript.len() == 0 {
        None
    } else {
        Some(from_utf8_lossy(transcript))
    }
}

/// The text of a transcript, or the fallback where it is empty.
pub fn resolve_aggregated_output(transcript: &Option<String>, fallback: &str) -> (r: String)
    ensures
        r@ == aggregated(crate::text::opt_text(*transcript), fallback@),
{
    match transcript {
        Some(text) => text.clone(),
        None => owned(fallback),
    }
}

/// The output of a command that ended by itself, with what it printed or the
/// fallback where that is not known.
pub fn exec_end_output(transcript: &Option<String>, fallback: &str, exit_code: i32) -> (r:
    ExecEndOutput)
    ensures
        r@ == ended_output(
            aggregated(crate::text::opt_text(*transcript), fallback@),
            exit_code,
        ),
{
    let text = resolve_aggregated_output(transcript, fallback);
    let stderr = String::new();
    assert(stderr@ =~= Seq::empty());
    ExecEndOutput {
        exit_code,
        stdout: text.clone(),
        stderr,
        aggregated_output: text,
        failed: false,
    }
}

/// The output of a command that failed: the fallback where there is one, and
/// else what it printed.
pub fn failed_exec_end_output(
    transcript: &Option<String>,
    fallback: &str,
    message: &str,
) -> (r: ExecEndOutput)
    ensures
        r@ == failed_output(
            if fallback@.len() == 0 {
                aggregated(crate::text::opt_text(*transcript), fallback@)
            } else {
                fallback@
            },
            message@,
        ),
{
    let stdout = if fallback.is_empty() {
        resolve_aggregated_output(transcript, fallback)
    } else {
        owned(fallback)
    };
    let aggregated_output = if stdout.as_str().is_empty() {
        owned(message)
    } else {
        concat_3(stdout.as_str(), "\n", message)
    };
    ExecEndOutput {
        exit_code: -1,
        stdout,
        stderr: owned(message),
        aggregated_output,
        failed: true,
    }
}

/// What is reported of an end, given the text of the transcript: a background
/// event is due where the command runs in the background by then and its exit
/// is to be told.
pub fn report_exit(
    end: &ProcessEnd,
    transcript: &Option<String>,
    initial_command_active: bool,
    notify_background_exit: bool,
) -> (r: ExitReport)
    ensures
        r.end@ == end_output(*end, crate::text::opt_text(*transcript)),
        r.background is Some <==> !initial_command_active && notify_background_exit,
        r.background matches Some(event) ==> event@ == exit_event(
            *end,
            crate::text::opt_text(*transcript),
        ),
{
    let due = !initial_command_active && notify_background_exit;
    proof {
        reveal_strlit("");
        assert(""@ =~= Seq::empty());
    }
    match end {
        ProcessEnd::Failed(message) => {
            let background = if due {
                let text = resolve_aggregated_output(transcript, message.as_str());
                let mut reason = owned("process failed: ");
                reason.append(message.as_str());
                Some(
                    BackgroundTriggerFired {
                        trigger: owned("failure_exit"),
                        reason,
                        output_tail: bounded_tail(
                            text.as_str(),
                            BACKGROUND_EVENT_OUTPUT_TAIL_MAX_CHARS,
                        ),
                    },
                )
            } else {
                None
            };
            let end = failed_exec_end_output(transcript, "", message.as_str());
            ExitReport { background, end }
        },
        ProcessEnd::Exited(code) => {
            let exit_code: i32 = match code {
                Some(code) => *code,
                None => -1,
            };
            let background = if due {
                let text = resolve_aggregated_output(transcript, "");
                let mut reason = owned("process exited with code ");
                reason.append(i32_text(exit_code).as_str());
                Some(
                    BackgroundTriggerFired {
                        trigger: owned("on_exit"),
                        reason,
                        output_tail: bounded_tail(
                            text.as_str(),
                            BACKGROUND_EVENT_OUTPUT_TAIL_MAX_CHARS,
                        ),
                    },
                )
            } else {
                None
            };
            let end = exec_end_output(transcript, "", exit_code);
            ExitReport { background, end }
        },
    }
}

/// What is reported of an end, given the bytes of the transcript.
pub fn exit_report(
    end: &ProcessEnd,
    transcript: &[u8],
    initial_command_active: bool,
    notify_background_exit: bool,
) -> (r: ExitReport)
    ensures
        r.end@ == end_output(*end, transcript_text(transcript@)),
        r.background is Some <==> !initial_command_active && notify_background_exit,
        r.background matches Some(event) ==> event@ == exit_event(
            *end,
            transcript_text(transcript@),
        ),
{
    let text = resolve_transcript(transcript);
    report_exit(end, &text, initial_command_active, notify_background_exit)
}

/// The event of a process that exited names the code that its end is reported
/// with.
pub proof fn lemma_exit_event_names_code(code: Option<i32>, transcript: Option<Seq<char>>)
    ensures
        exit_event(ProcessEnd::Exited(code), transcript).reason == "process exited with code "@
            + decimal_int(end_output(ProcessEnd::Exited(code), transcript).exit_code as int),
        exit_event(ProcessEnd::Exited(code), transcript).output_tail.len()
            <= BACKGROUND_EVENT_OUTPUT_TAIL_MAX_CHARS,
{
}

} // verus!
