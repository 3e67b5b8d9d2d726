//! Background commands that the context keeps track of.

use vstd::prelude::*;

use crate::exec_events::{ExecCommandBeginEvent, ExecCommandEndEvent, ExecCommandStatus};
use crate::lists::{append_unique, append_unique_values, MAX_TOOL_EVENT_CHARS};
use crate::sanitize::{truncate_chars, truncated};
use crate::split::{join, join_strings};
use crate::text::{
    clone_opt, clone_strings, eq_ignore_case, opt_text, owned, str_eq, str_eq_ignore_case, texts,
};

verus! {

/// A background command.
#[derive(Debug, PartialEq, Eq)]
pub struct NativeBackgroundJob {
    pub process_id: String,
    pub description: String,
    pub triggers: Vec<String>,
    pub command: Option<String>,
    pub cwd: Option<String>,
    pub started_at_ms: Option<i64>,
    pub log_path: Option<String>,
}

/// The texts of a [`NativeBackgroundJob`].
pub struct JobView {
    pub process_id: Seq<char>,
    pub description: Seq<char>,
    pub triggers: Seq<Seq<char>>,
    pub command: Option<Seq<char>>,
    pub cwd: Option<Seq<char>>,
    pub started_at_ms: Option<i64>,
    pub log_path: Option<Seq<char>>,
}

impl View for NativeBackgroundJob {
    type V = JobView;

    open spec fn view(&self) -> JobView {
        JobView {
            process_id: self.process_id@,
            description: self.description@,
            triggers: texts(self.triggers@),
            command: opt_text(self.command),
            cwd: opt_text(self.cwd),
            started_at_ms: self.started_at_ms,
            log_path: opt_text(self.log_path),
        }
    }
}

/// The description of a command that was started without one.
pub open spec fn no_description() -> Seq<char> {
    "(no description recorded)"@
}

/// `value` behind a label, where there is a value.
pub open spec fn labeled(label: Seq<char>, value: Option<Seq<char>>) -> Seq<char> {
    match value {
        Some(text) => label + text,
        None => Seq::empty(),
    }
}

/// The first value that is there.
pub open spec fn first_of<A>(value: Option<A>, other: Option<A>) -> Option<A> {
    match value {
        Some(_) => value,
        None => other,
    }
}

impl JobView {
    /// The line under which the job is shown.
    pub open spec fn summary(self) -> Seq<char> {
        truncated(
            "exec session "@ + self.process_id + " running: "@ + self.description + labeled(
                "; command: "@,
                self.command,
            ) + labeled("; cwd: "@, self.cwd) + labeled("; log: "@, self.log_path) + if
                self.triggers.len() == 0 {
                Seq::empty()
            } else {
                "; triggers: "@ + join(self.triggers, ", "@)
            },
            MAX_TOOL_EVENT_CHARS as nat,
        )
    }

    /// This job, with what it lacks taken from `other`.
    pub open spec fn merged(self, other: JobView) -> JobView {
        JobView {
            process_id: self.process_id,
            description: if self.description == no_description() {
                other.description
            } else {
                self.description
            },
            triggers: append_unique(self.triggers, other.triggers, usize::MAX as nat),
            command: first_of(self.command, other.command),
            cwd: first_of(self.cwd, other.cwd),
            started_at_ms: first_of(self.started_at_ms, other.started_at_ms),
            log_path: first_of(self.log_path, other.log_path),
        }
    }

    /// Whether some declared trigger asks for a report on exit.
    pub open spec fn asks_for_exit(self) -> bool {
        exists|i: int|
            0 <= i < self.triggers.len() && eq_ignore_case(#[trigger] self.triggers[i], "on_exit"@)
    }
}

/// The job that the start of a command stands for: only one with a session and
/// with a description or triggers is a background command.
pub open spec fn begun_job(event: ExecCommandBeginEvent) -> Option<JobView> {
    if event.process_id is None || (event.background_description is None
        && event.background_triggers@.len() == 0) {
        None
    } else {
        Some(
            JobView {
                process_id: event.process_id->0@,
                description: match event.background_description {
                    Some(description) => description@,
                    None => no_description(),
                },
                triggers: texts(event.background_triggers@),
                command: Some(join(texts(event.command@), " "@)),
                cwd: Some(event.cwd@),
                started_at_ms: Some(event.started_at_ms),
                log_path: None,
            },
        )
    }
}

impl Clone for NativeBackgroundJob {
    fn clone(&self) -> (r: Self)
        ensures
            r@ == self@,
    {
        NativeBackgroundJob {
            process_id: self.process_id.clone(),
            description: self.description.clone(),
            triggers: clone_strings(&self.triggers),
            command: clone_opt(&self.command),
            cwd: clone_opt(&self.cwd),
            started_at_ms: self.started_at_ms,
            log_path: clone_opt(&self.log_path),
        }
    }
}

fn append_labeled(out: &mut String, label: &str, value: &Option<String>)
    ensures
        final(out)@ == old(out)@ + labeled(label@, opt_text(*value)),
{
    let ghost start = out@;
    match value {
        Some(text) => {
            out.append(label);
            out.append(text.as_str());
        },
        None => {},
    }
    assert(out@ =~= start + labeled(label@, opt_text(*value)));
}

impl NativeBackgroundJob {
    /// The job that the start of a command stands for.
    pub fn from_exec_begin(event: &ExecCommandBeginEvent) -> (r: Option<Self>)
        ensures
            r matches Some(job) ==> begun_job(*event) == Some(job@),
            r is None ==> begun_job(*event) is None,
    {
        let process_id = match &event.process_id {
            Some(process_id) => process_id.clone(),
            None => {
                return None;
            },
        };
        if event.background_description.is_none() && event.background_triggers.len() == 0 {
            return None;
        }
        let description = match &event.background_description {
            Some(description) => description.clone(),
            None => owned("(no description recorded)"),
        };
        Some(
            NativeBackgroundJob {
                process_id,
                description,
                triggers: clone_strings(&event.background_triggers),
                command: Some(join_strings(&event.command, " ")),
                cwd: Some(event.cwd.clone()),
                started_at_ms: Some(event.started_at_ms),
                log_path: None,
            },
        )
    }

    /// Renders the line under which the job is shown.
    pub fn summary(&self) -> (r: String)
        ensures
            r@ == self@.summary(),
    {
        let mut line = owned("exec session ");
        line.append(self.process_id.as_str());
        line.append(" running: ");
        line.append(self.description.as_str());
        append_labeled(&mut line, "; command: ", &self.command);
        append_labeled(&mut line, "; cwd: ", &self.cwd);
        append_labeled(&mut line, "; log: ", &self.log_path);
        let ghost head = line@;
        if self.triggers.len() > 0 {
            line.append("; triggers: ");
            line.append(join_strings(&self.triggers, ", ").as_str());
            assert(line@ =~= head + ("; triggers: "@ + join(texts(self.triggers@), ", "@)));
        } else {
            assert(line@ =~= head + Seq::empty());
        }
        truncate_chars(line.as_str(), MAX_TOOL_EVENT_CHARS)
    }

    /// Takes over what the job lacks.
    pub fn merge_from(&mut self, other: Self)
        ensures
            final(self)@ == old(self)@.merged(other@),
    {
        if str_eq(self.description.as_str(), "(no description recorded)") {
            self.description = other.description;
        }
        append_unique_values(&mut self.triggers, other.triggers.as_slice(), None);
        if self.command.is_none() {
            self.command = other.command;
        }
        if self.cwd.is_none() {
            self.cwd = other.cwd;
        }
        if self.started_at_ms.is_none() {
            self.started_at_ms = other.started_at_ms;
        }
        if self.log_path.is_none() {
            self.log_path = other.log_path;
        }
    }

    /// Whether the end of the job is to be reported.
    pub fn should_trigger_on_exit(&self, event: &ExecCommandEndEvent) -> (r: bool)
        ensures
            r == (event.exit_code != 0 || !(event.status is Completed) || self@.asks_for_exit()),
    {
        if event.exit_code != 0 {
            return true;
        }
        match event.status {
            ExecCommandStatus::Failed | ExecCommandStatus::Declined => {
                return true;
            },
            ExecCommandStatus::Completed => {},
        }
        let mut i: usize = 0;
        while i < self.triggers.len()
            invariant
                i <= self.triggers.len(),
                forall|j: int|
                    0 <= j < i ==> !eq_ignore_case(#[trigger] self@.triggers[j], "on_exit"@),
            decreases self.triggers.len() - i,
        {
            if str_eq_ignore_case(self.triggers[i].as_str(), "on_exit") {
                assert(eq_ignore_case(self@.triggers[i as int], "on_exit"@));
                return true;
            }
            i += 1;
        }
        false
    }
}

/// A job's line is bounded, whatever the job is about.
pub proof fn lemma_summary_bound(job: JobView)
    ensures
        job.summary().len() <= MAX_TOOL_EVENT_CHARS,
{
    reveal_strlit(" ... [truncated]");
}

} // verus!
