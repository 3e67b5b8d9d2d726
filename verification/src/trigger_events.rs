//! Events that a background command has fired and that wait to be shown.

use vstd::prelude::*;

use crate::decimal::{decimal_int, i32_text, lemma_decimal_digits, lemma_decimal_nonempty, push_i32};
use crate::exec_events::{ExecBackgroundTriggerEvent, ExecCommandEndEvent, ExecCommandStatus};
use crate::jobs::{first_of, no_description, JobView, NativeBackgroundJob};
use crate::lists::{append_unique, append_unique_values};
use crate::markers::{
    enclosed, inert, is_tag, lacks_from, lemma_append_clean, lemma_clean_across, lemma_clean_take,
    lemma_enclosed, lemma_inert, lemma_lacks_clean, lemma_lacks_from, lemma_plain_clean,
    lemma_replace_cleans,
};
use crate::sanitize::{truncate_chars, truncated};
use crate::search::{after_prefix, occurs, occurs_at, replace, replaced, strip_prefix_chars};
use crate::split::{join, join_strings};
use crate::text::{
    clone_opt, clone_strings, eq_ignore_case, from_chars, is_white_space, opt_text, owned, str_eq,
    str_eq_ignore_case, texts, to_chars, trim, trim_chars, trim_end, trim_start,
};

verus! {

/// Most characters of the output that an event shows.
pub const MAX_BACKGROUND_EVENT_TAIL_CHARS: usize = 2_000;

/// Opens a rendered event.
pub const EVENT_START: &'static str = "<codex_link_background_event>";

/// Closes a rendered event.
pub const EVENT_END: &'static str = "</codex_link_background_event>";

/// An event that waits to be shown.
#[derive(Debug, PartialEq, Eq)]
pub struct BackgroundTriggerEvent {
    pub event_key: String,
    pub process_id: String,
    pub trigger: String,
    pub description: String,
    pub triggers: Vec<String>,
    pub command: String,
    pub cwd: String,
    pub exit_code: String,
    pub status: String,
    pub tail: String,
    pub log_path: Option<String>,
}

/// The texts of a [`BackgroundTriggerEvent`].
pub struct EventView {
    pub event_key: Seq<char>,
    pub process_id: Seq<char>,
    pub trigger: Seq<char>,
    pub description: Seq<char>,
    pub triggers: Seq<Seq<char>>,
    pub command: Seq<char>,
    pub cwd: Seq<char>,
    pub exit_code: Seq<char>,
    pub status: Seq<char>,
    pub tail: Seq<char>,
    pub log_path: Option<Seq<char>>,
}

impl View for BackgroundTriggerEvent {
    type V = EventView;

    open spec fn view(&self) -> EventView {
        EventView {
            event_key: self.event_key@,
            process_id: self.process_id@,
            trigger: self.trigger@,
            description: self.description@,
            triggers: texts(self.triggers@),
            command: self.command@,
            cwd: self.cwd@,
            exit_code: self.exit_code@,
            status: self.status@,
            tail: self.tail@,
            log_path: opt_text(self.log_path),
        }
    }
}

/// `text`, or `other` where `text` is empty.
pub open spec fn unless_empty(text: Seq<char>, other: Seq<char>) -> Seq<char> {
    if text.len() == 0 {
        other
    } else {
        text
    }
}

/// Whether a trigger reports the end of a command.
pub open spec fn is_exit_trigger_name(trigger: Seq<char>) -> bool {
    eq_ignore_case(trigger, "on_exit"@) || eq_ignore_case(trigger, "failure_exit"@)
}

/// The key of the event that a session ended with a code.
pub open spec fn exit_key(process_id: Seq<char>, exit_code: Seq<char>) -> Seq<char> {
    "exec:"@ + process_id + ":exit:"@ + exit_code
}

/// The exit code and the status that a trigger reports, where it reports the
/// end of the command.
pub open spec fn terminal_status(trigger: Seq<char>, reason: Seq<char>) -> Option<
    (Seq<char>, Seq<char>),
> {
    if eq_ignore_case(trigger, "on_exit"@) {
        let code = match after_prefix(reason, "process exited with code "@) {
            Some(rest) => trim(rest),
            None => Seq::empty(),
        };
        Some((unless_empty(code, "0"@), ExecCommandStatus::Completed.name()))
    } else if eq_ignore_case(trigger, "failure_exit"@) {
        Some(("failed"@, ExecCommandStatus::Failed.name()))
    } else {
        None
    }
}

/// `value` with the markers of events and of internal context made harmless.
pub open spec fn event_text(value: Seq<char>) -> Seq<char> {
    replace(
        replace(
            replace(
                replace(value, EVENT_START@, "[codex_link_background_event]"@),
                EVENT_END@,
                "[/codex_link_background_event]"@,
            ),
            "<codex_internal_context"@,
            "[codex_internal_context"@,
        ),
        "</codex_internal_context>"@,
        "[/codex_internal_context]"@,
    )
}

/// One labelled line of a rendered event.
pub open spec fn event_line(label: Seq<char>, value: Seq<char>) -> Seq<char> {
    label + event_text(value) + "\n"@
}

impl EventView {
    /// The event of a command that ended.
    pub open spec fn ended(job: JobView, event: ExecCommandEndEvent) -> EventView {
        EventView {
            event_key: exit_key(job.process_id, decimal_int(event.exit_code as int)),
            process_id: job.process_id,
            trigger: if event.exit_code == 0 && event.status is Completed {
                "on_exit"@
            } else {
                "failure_exit"@
            },
            description: job.description,
            triggers: job.triggers,
            command: join(texts(event.command@), " "@),
            cwd: event.cwd@,
            exit_code: decimal_int(event.exit_code as int),
            status: event.status.name(),
            tail: truncated(event.aggregated_output@, MAX_BACKGROUND_EVENT_TAIL_CHARS as nat),
            log_path: job.log_path,
        }
    }

    /// The event of a trigger that fired.
    pub open spec fn fired(
        event: ExecBackgroundTriggerEvent,
        description: Seq<char>,
        triggers: Seq<Seq<char>>,
        log_path: Option<Seq<char>>,
    ) -> EventView {
        let terminal = terminal_status(event.trigger@, event.reason@);
        EventView {
            event_key: match terminal {
                Some(end) => exit_key(event.process_id@, end.0),
                None => "exec:"@ + event.process_id@ + ":background_trigger:"@ + event.trigger@,
            },
            process_id: event.process_id@,
            trigger: event.trigger@,
            description,
            triggers,
            command: join(texts(event.command@), " "@),
            cwd: event.cwd@,
            exit_code: match terminal {
                Some(end) => end.0,
                None => "still running"@,
            },
            status: match terminal {
                Some(end) => end.1,
                None => "running"@,
            },
            tail: truncated(event.output_tail@, MAX_BACKGROUND_EVENT_TAIL_CHARS as nat),
            log_path,
        }
    }

    /// Whether the event reports the end of its command.
    pub open spec fn is_exit_trigger(self) -> bool {
        is_exit_trigger_name(self.trigger)
    }

    /// Whether the event reports the end of its command, with an exit code.
    pub open spec fn is_terminal_exit(self) -> bool {
        self.is_exit_trigger() && self.exit_code != "still running"@
    }

    /// Whether this event makes `existing` needless.
    pub open spec fn supersedes(self, existing: EventView) -> bool {
        self.process_id == existing.process_id && self.is_terminal_exit()
            && existing.is_exit_trigger()
    }

    /// This event, with what it lacks taken from `other`.
    pub open spec fn merged(self, other: EventView) -> EventView {
        EventView {
            description: if self.description == no_description() {
                other.description
            } else {
                self.description
            },
            triggers: append_unique(self.triggers, other.triggers, usize::MAX as nat),
            command: unless_empty(self.command, other.command),
            cwd: unless_empty(self.cwd, other.cwd),
            exit_code: if self.exit_code == "still running"@ {
                other.exit_code
            } else {
                self.exit_code
            },
            status: if self.status == "running"@ {
                other.status
            } else {
                self.status
            },
            tail: unless_empty(self.tail, other.tail),
            log_path: first_of(self.log_path, other.log_path),
            ..self
        }
    }

    /// This event, with what it lacks taken from its job.
    pub open spec fn with_job(self, job: JobView) -> EventView {
        EventView {
            description: if self.description == no_description() {
                job.description
            } else {
                self.description
            },
            triggers: append_unique(self.triggers, job.triggers, usize::MAX as nat),
            command: match job.command {
                Some(command) => unless_empty(self.command, command),
                None => self.command,
            },
            cwd: match job.cwd {
                Some(cwd) => unless_empty(self.cwd, cwd),
                None => self.cwd,
            },
            log_path: first_of(self.log_path, job.log_path),
            ..self
        }
    }

    /// The lines of the rendered event, between its markers.
    pub open spec fn rendered_lines(self) -> Seq<char> {
        event_line("Process: "@, self.process_id) + event_line("Trigger: "@, self.trigger)
            + event_line("Description: "@, self.description) + event_line(
            "Declared triggers: "@,
            if self.triggers.len() == 0 {
                "(none recorded)"@
            } else {
                join(self.triggers, ", "@)
            },
        ) + event_line("Command: "@, self.command) + event_line("CWD: "@, self.cwd) + event_line(
            "Log: "@,
            match self.log_path {
                Some(path) => path,
                None => "(none recorded)"@,
            },
        ) + event_line("Exit code: "@, self.exit_code) + event_line("Status: "@, self.status)
            + event_line("Output tail:\n"@, self.tail) + event_instruction()
    }

    /// The rendered event.
    pub open spec fn rendered(self) -> Seq<char> {
        EVENT_START@ + "\n"@ + self.rendered_lines() + EVENT_END@
    }
}

/// What a rendered event asks for.
pub open spec fn event_instruction() -> Seq<char> {
    "Instruction: This background event has already fired. Do at most one follow-up pass: inspect the result, update the plan or files if needed, and do not start another wait/poll loop unless you deliberately launch a new background command with fresh triggers.\n"@
}

/// Reads the end of a command out of a trigger and its reason.
pub fn terminal_status_from_background_trigger(trigger: &str, reason: &str) -> (r: Option<
    (String, String),
>)
    ensures
        r matches Some(end) ==> terminal_status(trigger@, reason@) == Some((end.0@, end.1@)),
        r is None ==> terminal_status(trigger@, reason@) is None,
{
    if str_eq_ignore_case(trigger, "on_exit") {
        let chars = to_chars(reason);
        let prefix = to_chars("process exited with code ");
        let code: Vec<char> = match strip_prefix_chars(chars.as_slice(), prefix.as_slice()) {
            Some(rest) => trim_chars(rest.as_slice()),
            None => Vec::new(),
        };
        let code = if code.len() == 0 {
            owned("0")
        } else {
            from_chars(code.as_slice())
        };
        return Some((code, owned(ExecCommandStatus::Completed.label())));
    }
    if str_eq_ignore_case(trigger, "failure_exit") {
        return Some((owned("failed"), owned(ExecCommandStatus::Failed.label())));
    }
    None
}

/// Makes the markers of events and of internal context harmless.
pub fn sanitize_for_event(value: &str) -> (r: String)
    ensures
        r@ == event_text(value@),
{
    let text = replaced(value, EVENT_START, "[codex_link_background_event]");
    let text = replaced(text.as_str(), EVENT_END, "[/codex_link_background_event]");
    let text = replaced(text.as_str(), "<codex_internal_context", "[codex_internal_context");
    replaced(text.as_str(), "</codex_internal_context>", "[/codex_internal_context]")
}

fn push_event_line(out: &mut String, label: &str, value: &str)
    ensures
        final(out)@ == old(out)@ + event_line(label@, value@),
{
    let ghost start = out@;
    out.append(label);
    out.append(sanitize_for_event(value).as_str());
    out.append("\n");
    assert(out@ =~= start + event_line(label@, value@));
}

impl Clone for BackgroundTriggerEvent {
    fn clone(&self) -> (r: Self)
        ensures
            r@ == self@,
    {
        BackgroundTriggerEvent {
            event_key: self.event_key.clone(),
            process_id: self.process_id.clone(),
            trigger: self.trigger.clone(),
            description: self.description.clone(),
            triggers: clone_strings(&self.triggers),
            command: self.command.clone(),
            cwd: self.cwd.clone(),
            exit_code: self.exit_code.clone(),
            status: self.status.clone(),
            tail: self.tail.clone(),
            log_path: clone_opt(&self.log_path),
        }
    }
}

impl BackgroundTriggerEvent {
    /// The event of a command that ended.
    pub fn from_exec_end(job: NativeBackgroundJob, event: &ExecCommandEndEvent) -> (r: Self)
        ensures
            r@ == EventView::ended(job@, *event),
    {
        let completed = match event.status {
            ExecCommandStatus::Completed => true,
            _ => false,
        };
        let trigger = if event.exit_code == 0 && completed {
            owned("on_exit")
        } else {
            owned("failure_exit")
        };
        let mut event_key = owned("exec:");
        event_key.append(job.process_id.as_str());
        event_key.append(":exit:");
        push_i32(&mut event_key, event.exit_code);
        BackgroundTriggerEvent {
            event_key,
            process_id: job.process_id,
            trigger,
            description: job.description,
            triggers: job.triggers,
            command: join_strings(&event.command, " "),
            cwd: event.cwd.clone(),
            exit_code: i32_text(event.exit_code),
            status: owned(event.status.label()),
            tail: truncate_chars(event.aggregated_output.as_str(), MAX_BACKGROUND_EVENT_TAIL_CHARS),
            log_path: job.log_path,
        }
    }

    /// The event of a trigger that fired.
    pub fn from_exec_background_trigger(
        event: &ExecBackgroundTriggerEvent,
        description: String,
        triggers: Vec<String>,
        log_path: Option<String>,
    ) -> (r: Self)
        ensures
            r@ == EventView::fired(*event, description@, texts(triggers@), opt_text(log_path)),
    {
        let mut event_key = owned("exec:");
        event_key.append(event.process_id.as_str());
        let (exit_code, status) = match terminal_status_from_background_trigger(
            event.trigger.as_str(),
            event.reason.as_str(),
        ) {
            Some((exit_code, status)) => {
                event_key.append(":exit:");
                event_key.append(exit_code.as_str());
                (exit_code, status)
            },
            None => {
                event_key.append(":background_trigger:");
                event_key.append(event.trigger.as_str());
                (owned("still running"), owned("running"))
            },
        };
        BackgroundTriggerEvent {
            event_key,
            process_id: event.process_id.clone(),
            trigger: event.trigger.clone(),
            description,
            triggers,
            command: join_strings(&event.command, " "),
            cwd: event.cwd.clone(),
            exit_code,
            status,
            tail: truncate_chars(event.output_tail.as_str(), MAX_BACKGROUND_EVENT_TAIL_CHARS),
            log_path,
        }
    }

    /// Takes over what the event lacks from another event with its key.
    pub fn merge_missing_from(&mut self, other: Self)
        ensures
            final(self)@ == old(self)@.merged(other@),
    {
        if str_eq(self.description.as_str(), "(no description recorded)") {
            self.description = other.description;
        }
        append_unique_values(&mut self.triggers, other.triggers.as_slice(), None);
        if self.command.as_str().is_empty() {
            self.command = other.command;
        }
        if self.cwd.as_str().is_empty() {
            self.cwd = other.cwd;
        }
        if str_eq(self.exit_code.as_str(), "still running") {
            self.exit_code = other.exit_code;
        }
        if str_eq(self.status.as_str(), "running") {
            self.status = other.status;
        }
        if self.tail.as_str().is_empty() {
            self.tail = other.tail;
        }
        if self.log_path.is_none() {
            self.log_path = other.log_path;
        }
    }

    /// Takes over what the event lacks from its job.
    pub fn merge_job_metadata(&mut self, job: &NativeBackgroundJob)
        ensures
            final(self)@ == old(self)@.with_job(job@),
    {
        if str_eq(self.description.as_str(), "(no description recorded)") {
            self.description = job.description.clone();
        }
        append_unique_values(&mut self.triggers, job.triggers.as_slice(), None);
        match &job.command {
            Some(command) => {
                if self.command.as_str().is_empty() {
                    self.command = command.clone();
                }
            },
            None => {},
        }
        match &job.cwd {
            Some(cwd) => {
                if self.cwd.as_str().is_empty() {
                    self.cwd = cwd.clone();
                }
            },
            None => {},
        }
        if self.log_path.is_none() {
            self.log_path = clone_opt(&job.log_path);
        }
    }

    /// Whether the event reports the end of its command, with an exit code.
    pub fn is_terminal_exit(&self) -> (r: bool)
        ensures
            r == self@.is_terminal_exit(),
    {
        self.is_exit_trigger() && !str_eq(self.exit_code.as_str(), "still running")
    }

    /// Whether the event reports the end of its command.
    pub fn is_exit_trigger(&self) -> (r: bool)
        ensures
            r == self@.is_exit_trigger(),
    {
        str_eq_ignore_case(self.trigger.as_str(), "on_exit") || str_eq_ignore_case(
            self.trigger.as_str(),
            "failure_exit",
        )
    }

    /// Whether this event makes a pending one needless.
    pub fn supersedes_pending(&self, existing: &Self) -> (r: bool)
        ensures
            r == self@.supersedes(existing@),
    {
        str_eq(self.process_id.as_str(), existing.process_id.as_str()) && self.is_terminal_exit()
            && existing.is_exit_trigger()
    }

    /// Renders the event for the model.
    pub fn render(&self) -> (r: String)
        ensures
            r@ == self@.rendered(),
    {
        let triggers = if self.triggers.len() == 0 {
            owned("(none recorded)")
        } else {
            join_strings(&self.triggers, ", ")
        };
        let log_path = match &self.log_path {
            Some(path) => path.clone(),
            None => owned("(none recorded)"),
        };
        let mut out = owned(EVENT_START);
        out.append("\n");
        push_event_line(&mut out, "Process: ", self.process_id.as_str());
        push_event_line(&mut out, "Trigger: ", self.trigger.as_str());
        push_event_line(&mut out, "Description: ", self.description.as_str());
        push_event_line(&mut out, "Declared triggers: ", triggers.as_str());
        push_event_line(&mut out, "Command: ", self.command.as_str());
        push_event_line(&mut out, "CWD: ", self.cwd.as_str());
        push_event_line(&mut out, "Log: ", log_path.as_str());
        push_event_line(&mut out, "Exit code: ", self.exit_code.as_str());
        push_event_line(&mut out, "Status: ", self.status.as_str());
        push_event_line(&mut out, "Output tail:\n", self.tail.as_str());
        out.append(
            "Instruction: This background event has already fired. Do at most one follow-up pass: inspect the result, update the plan or files if needed, and do not start another wait/poll loop unless you deliberately launch a new background command with fresh triggers.\n",
        );
        out.append(EVENT_END);
        assert(out@ =~= self@.rendered());
        out
    }
}

/// A marker that no part of an event may hold.
pub open spec fn is_event_marker(marker: Seq<char>) -> bool {
    ||| marker == EVENT_START@
    ||| marker == EVENT_END@
    ||| marker == "<codex_internal_context"@
    ||| marker == "</codex_internal_context>"@
}

proof fn lemma_event_marker(marker: Seq<char>)
    requires
        is_event_marker(marker),
    ensures
        is_tag(marker),
        lacks_from(marker, '[', 1),
        lacks_from(marker, '<', 1),
        marker.len() > 1,
{
    reveal_strlit("<codex_link_background_event>");
    reveal_strlit("</codex_link_background_event>");
    reveal_strlit("<codex_internal_context");
    reveal_strlit("</codex_internal_context>");
    reveal_with_fuel(lacks_from, 32);
    assert(lacks_from(marker, ' ', 0));
    assert(lacks_from(marker, '\n', 0));
    lemma_lacks_from(marker, ' ', 0);
    lemma_lacks_from(marker, '\n', 0);
}

proof fn lemma_event_name_inert(name: Seq<char>, marker: Seq<char>)
    requires
        is_event_marker(marker),
        name == "[codex_link_background_event]"@ || name == "[/codex_link_background_event]"@
            || name == "[codex_internal_context"@ || name == "[/codex_internal_context]"@,
    ensures
        inert(name, marker),
{
    lemma_event_marker(marker);
    reveal_strlit("[codex_link_background_event]");
    reveal_strlit("[/codex_link_background_event]");
    reveal_strlit("[codex_internal_context");
    reveal_strlit("[/codex_internal_context]");
    reveal_with_fuel(lacks_from, 32);
    lemma_inert(name, marker, 0);
}

/// A value that was made harmless holds none of the markers.
pub proof fn lemma_event_text_has_no_marker(value: Seq<char>, marker: Seq<char>)
    requires
        is_event_marker(marker),
    ensures
        !occurs(event_text(value), marker),
{
    let start = EVENT_START@;
    let end = EVENT_END@;
    let open = "<codex_internal_context"@;
    let close = "</codex_internal_context>"@;
    let a = replace(value, start, "[codex_link_background_event]"@);
    let b = replace(a, end, "[/codex_link_background_event]"@);
    let c = replace(b, open, "[codex_internal_context"@);
    lemma_event_marker(start);
    lemma_event_marker(end);
    lemma_event_marker(open);
    lemma_event_marker(close);
    lemma_event_name_inert("[codex_link_background_event]"@, marker);
    lemma_event_name_inert("[/codex_link_background_event]"@, marker);
    lemma_event_name_inert("[codex_internal_context"@, marker);
    lemma_event_name_inert("[/codex_internal_context]"@, marker);
    if marker == start {
        lemma_replace_cleans(value, start, "[codex_link_background_event]"@, marker);
    }
    if marker == start || marker == end {
        lemma_replace_cleans(a, end, "[/codex_link_background_event]"@, marker);
    }
    if marker == start || marker == end || marker == open {
        lemma_replace_cleans(b, open, "[codex_internal_context"@, marker);
    }
    lemma_replace_cleans(c, close, "[/codex_internal_context]"@, marker);
}

proof fn lemma_event_line_clean(label: Seq<char>, value: Seq<char>, marker: Seq<char>)
    requires
        is_event_marker(marker),
        label.len() > 0,
        label.last() == ' ' || label.last() == '\n',
        lacks_from(label, '<', 0),
    ensures
        !occurs(event_line(label, value), marker),
        event_line(label, value).len() > 0,
        event_line(label, value).last() == '\n',
{
    reveal_strlit("\n");
    let text = event_text(value);
    lemma_event_marker(marker);
    lemma_event_text_has_no_marker(value, marker);
    lemma_plain_clean(label, marker);
    lemma_append_clean(label, text, marker);
    lemma_lacks_clean(Seq::<char>::empty(), marker);
    lemma_clean_across(label + text, '\n', Seq::empty(), marker);
    assert(label + text + seq!['\n'] + Seq::<char>::empty() =~= event_line(label, value));
}

proof fn lemma_instruction_clean(marker: Seq<char>)
    requires
        is_event_marker(marker),
    ensures
        !occurs(event_instruction(), marker),
        event_instruction().len() > 0,
        event_instruction().last() == '\n',
{
    lemma_event_marker(marker);
    reveal_strlit(
        "Instruction: This background event has already fired. Do at most one follow-up pass: inspect the result, update the plan or files if needed, and do not start another wait/poll loop unless you deliberately launch a new background command with fresh triggers.\n",
    );
    let text = event_instruction();
    reveal_with_fuel(lacks_from, 66);
    assert(lacks_from(text, '<', 195));
    assert(lacks_from(text, '<', 130));
    assert(lacks_from(text, '<', 65));
    assert(lacks_from(text, '<', 0));
    lemma_plain_clean(text, marker);
}

proof fn lemma_rendered_lines_clean(event: EventView, marker: Seq<char>)
    requires
        is_event_marker(marker),
    ensures
        !occurs(event.rendered_lines(), marker),
        event.rendered_lines().len() > 0,
        event.rendered_lines().last() == '\n',
{
    reveal_strlit("Process: ");
    reveal_strlit("Trigger: ");
    reveal_strlit("Description: ");
    reveal_strlit("Declared triggers: ");
    reveal_strlit("Command: ");
    reveal_strlit("CWD: ");
    reveal_strlit("Log: ");
    reveal_strlit("Exit code: ");
    reveal_strlit("Status: ");
    reveal_strlit("Output tail:\n");
    reveal_with_fuel(lacks_from, 22);
    lemma_event_marker(marker);
    let triggers = if event.triggers.len() == 0 {
        "(none recorded)"@
    } else {
        join(event.triggers, ", "@)
    };
    let log = match event.log_path {
        Some(path) => path,
        None => "(none recorded)"@,
    };
    let l1 = event_line("Process: "@, event.process_id);
    let l2 = event_line("Trigger: "@, event.trigger);
    let l3 = event_line("Description: "@, event.description);
    let l4 = event_line("Declared triggers: "@, triggers);
    let l5 = event_line("Command: "@, event.command);
    let l6 = event_line("CWD: "@, event.cwd);
    let l7 = event_line("Log: "@, log);
    let l8 = event_line("Exit code: "@, event.exit_code);
    let l9 = event_line("Status: "@, event.status);
    let l10 = event_line("Output tail:\n"@, event.tail);
    lemma_event_line_clean("Process: "@, event.process_id, marker);
    lemma_event_line_clean("Trigger: "@, event.trigger, marker);
    lemma_event_line_clean("Description: "@, event.description, marker);
    lemma_event_line_clean("Declared triggers: "@, triggers, marker);
    lemma_event_line_clean("Command: "@, event.command, marker);
    lemma_event_line_clean("CWD: "@, event.cwd, marker);
    lemma_event_line_clean("Log: "@, log, marker);
    lemma_event_line_clean("Exit code: "@, event.exit_code, marker);
    lemma_event_line_clean("Status: "@, event.status, marker);
    lemma_event_line_clean("Output tail:\n"@, event.tail, marker);
    lemma_instruction_clean(marker);
    lemma_append_clean(l1, l2, marker);
    lemma_append_clean(l1 + l2, l3, marker);
    lemma_append_clean(l1 + l2 + l3, l4, marker);
    lemma_append_clean(l1 + l2 + l3 + l4, l5, marker);
    lemma_append_clean(l1 + l2 + l3 + l4 + l5, l6, marker);
    lemma_append_clean(l1 + l2 + l3 + l4 + l5 + l6, l7, marker);
    lemma_append_clean(l1 + l2 + l3 + l4 + l5 + l6 + l7, l8, marker);
    lemma_append_clean(l1 + l2 + l3 + l4 + l5 + l6 + l7 + l8, l9, marker);
    lemma_append_clean(l1 + l2 + l3 + l4 + l5 + l6 + l7 + l8 + l9, l10, marker);
    lemma_append_clean(
        l1 + l2 + l3 + l4 + l5 + l6 + l7 + l8 + l9 + l10,
        event_instruction(),
        marker,
    );
}

/// In a rendered event the start marker occurs at the start alone, the end
/// marker at the end alone, and no marker of internal context at all, whatever
/// the command printed.
pub proof fn lemma_rendered_markers(event: EventView)
    ensures
        forall|i: int| #[trigger] occurs_at(event.rendered(), EVENT_START@, i) <==> i == 0,
        forall|i: int| #[trigger]
            occurs_at(event.rendered(), EVENT_END@, i) <==> i == event.rendered().len()
                - EVENT_END@.len(),
        !occurs(event.rendered(), "<codex_internal_context"@),
        !occurs(event.rendered(), "</codex_internal_context>"@),
{
    let start = EVENT_START@;
    let end = EVENT_END@;
    let all = event.rendered_lines();
    let body = all.drop_last();
    assert(all.take(all.len() - 1) =~= body);
    reveal_strlit("\n");
    reveal_strlit("<codex_link_background_event>");
    reveal_strlit("</codex_link_background_event>");
    lemma_event_marker(start);
    lemma_event_marker(end);
    lemma_rendered_lines_clean(event, start);
    lemma_rendered_lines_clean(event, end);
    lemma_clean_take(all, all.len() - 1, start);
    lemma_clean_take(all, all.len() - 1, end);
    lemma_enclosed(start, body, end);
    assert(event.rendered() =~= enclosed(start, body, end));
    lemma_rendered_no_context(event, "<codex_internal_context"@);
    lemma_rendered_no_context(event, "</codex_internal_context>"@);
}

proof fn lemma_rendered_no_context(event: EventView, marker: Seq<char>)
    requires
        marker == "<codex_internal_context"@ || marker == "</codex_internal_context>"@,
    ensures
        !occurs(event.rendered(), marker),
{
    let start = EVENT_START@;
    let end = EVENT_END@;
    let all = event.rendered_lines();
    reveal_strlit("\n");
    lemma_event_marker(marker);
    lemma_rendered_lines_clean(event, marker);
    reveal_strlit("<codex_link_background_event>");
    reveal_strlit("</codex_link_background_event>");
    reveal_strlit("<codex_internal_context");
    reveal_strlit("</codex_internal_context>");
    assert forall|k: int| !#[trigger] occurs_at(start, marker, k) by {
        lemma_event_marker(start);
        lemma_lacks_from(start, '<', 1);
        if occurs_at(start, marker, k) {
            assert(start.subrange(k, k + marker.len())[0] == start[k]);
            assert(start.subrange(k, k + marker.len())[1] == start[k + 1]);
            assert(start.subrange(k, k + marker.len())[7] == start[k + 7]);
        }
    }
    assert forall|k: int| !#[trigger] occurs_at(end, marker, k) by {
        lemma_event_marker(end);
        lemma_lacks_from(end, '<', 1);
        if occurs_at(end, marker, k) {
            assert(end.subrange(k, k + marker.len())[0] == end[k]);
            assert(end.subrange(k, k + marker.len())[1] == end[k + 1]);
            assert(end.subrange(k, k + marker.len())[8] == end[k + 8]);
        }
    }
    lemma_append_clean(all, end, marker);
    lemma_clean_across(start, '\n', all + end, marker);
    assert(start + seq!['\n'] + (all + end) =~= event.rendered());
}

proof fn lemma_trim_digits(code: int)
    ensures
        trim(decimal_int(code)) == decimal_int(code),
        decimal_int(code).len() > 0,
{
    let n: nat = if code < 0 {
        (-code) as nat
    } else {
        code as nat
    };
    lemma_decimal_nonempty(n);
    lemma_decimal_digits(n);
    reveal_strlit("-");
    let text = decimal_int(code);
    assert(!is_white_space(text[0]));
    assert(!is_white_space(text.last()));
    assert(trim_start(text) == text);
    assert(trim_end(text) == text);
}

/// The trigger on exit that names a code, and the end of the command with that
/// code, have the same key: whichever comes second is recognised.
pub proof fn lemma_exit_keys_agree(
    trigger: ExecBackgroundTriggerEvent,
    end: ExecCommandEndEvent,
    job: JobView,
    description: Seq<char>,
    triggers: Seq<Seq<char>>,
    log_path: Option<Seq<char>>,
)
    requires
        eq_ignore_case(trigger.trigger@, "on_exit"@),
        trigger.reason@ == "process exited with code "@ + decimal_int(end.exit_code as int),
        trigger.process_id@ == job.process_id,
    ensures
        EventView::fired(trigger, description, triggers, log_path).event_key == EventView::ended(
            job,
            end,
        ).event_key,
        EventView::fired(trigger, description, triggers, log_path).exit_code == EventView::ended(
            job,
            end,
        ).exit_code,
{
    let code = decimal_int(end.exit_code as int);
    let prefix = "process exited with code "@;
    lemma_trim_digits(end.exit_code as int);
    assert(trigger.reason@.subrange(0, prefix.len() as int) =~= prefix);
    assert(trigger.reason@.skip(prefix.len() as int) =~= code);
    assert(after_prefix(trigger.reason@, prefix) == Some(code));
}

} // verus!
