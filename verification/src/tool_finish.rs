//! What a finished tool call leaves in the context.

use vstd::prelude::*;

use crate::jobs::{no_description, JobView, NativeBackgroundJob};
use crate::lists::MAX_TOOL_EVENT_CHARS;
use crate::sanitize::{sanitize_value, sanitized, truncate_chars, truncated};
use crate::search::{
    after_prefix, find_chars, find_from, has_prefix, lemma_find_from, matches_at, occurs, occurs_at,
    strip_prefix_chars,
};
use crate::split::{fields, lines, split_fields, split_lines};
use crate::text::{
    char_texts, chars_eq, from_chars, lemma_texts_push, opt_text, owned, str_eq, sub_chars, texts,
    to_chars,
};

verus! {

/// Most characters of a tool's output, and of one value read from it.
pub const MAX_TOOL_OUTPUT_PREVIEW_CHARS: usize = 600;

/// How a tool call ended.
#[derive(Clone, Copy, Debug, PartialEq, Eq, Structural)]
pub enum ToolCallOutcome {
    Completed { success: bool },
    Blocked,
    Failed { handler_executed: bool },
    Aborted,
}

/// Where a tool call came from.
#[derive(Debug, PartialEq, Eq)]
pub enum ToolCallSource {
    Direct,
    CodeMode { cell_id: String, runtime_tool_call_id: String },
}

/// The name of a tool.
#[derive(Debug, PartialEq, Eq)]
pub struct ToolName {
    pub namespace: Option<String>,
    pub name: String,
    /// The whole name as the host shows it.
    pub label: String,
}

/// A finished tool call.
#[derive(Debug, PartialEq, Eq)]
pub struct ToolFinishInput {
    pub turn_id: String,
    pub call_id: String,
    pub tool_name: ToolName,
    pub source: ToolCallSource,
    pub outcome: ToolCallOutcome,
    pub output_preview: Option<String>,
}

/// The words for an outcome.
pub open spec fn outcome_text(outcome: ToolCallOutcome) -> Seq<char> {
    match outcome {
        ToolCallOutcome::Completed { success } => if success {
            "completed successfully"@
        } else {
            "completed with a reported failure"@
        },
        ToolCallOutcome::Blocked => "was blocked by host policy"@,
        ToolCallOutcome::Failed { handler_executed } => if handler_executed {
            "failed after its handler started"@
        } else {
            "failed before its handler started"@
        },
        ToolCallOutcome::Aborted => "was aborted"@,
    }
}

/// The words for a source: none for a direct call.
pub open spec fn source_text(source: ToolCallSource) -> Seq<char> {
    match source {
        ToolCallSource::Direct => Seq::empty(),
        ToolCallSource::CodeMode { cell_id, runtime_tool_call_id } => " via code cell "@ + cell_id@
            + ", runtime call "@ + runtime_tool_call_id@,
    }
}

/// The cleaned output, behind a label; nothing where there is none.
pub open spec fn preview_text(preview: Option<Seq<char>>) -> Seq<char> {
    match preview {
        Some(text) => match sanitized(text, MAX_TOOL_OUTPUT_PREVIEW_CHARS as nat) {
            Some(shown) => ". Output preview: "@ + shown,
            None => Seq::empty(),
        },
        None => Seq::empty(),
    }
}

/// The line that records a finished tool call.
pub open spec fn tool_finish_text(input: ToolFinishInput) -> Seq<char> {
    truncated(
        "Tool "@ + input.tool_name.label@ + " "@ + outcome_text(input.outcome) + source_text(
            input.source,
        ) + " (turn "@ + input.turn_id@ + ", call "@ + input.call_id@ + ")"@ + preview_text(
            opt_text(input.output_preview),
        ),
        MAX_TOOL_EVENT_CHARS as nat,
    )
}

/// The part of a command's output that the host wrote: it begins with a chunk
/// id and ends before the output proper.
pub open spec fn exec_header(preview: Seq<char>) -> Option<Seq<char>> {
    if !has_prefix(preview, "Chunk ID: "@) {
        None
    } else {
        match find_from(preview, "\nOutput:"@, 0) {
            Some(k) => Some(preview.take(k)),
            None => Some(preview),
        }
    }
}

/// What follows `prefix` on the first of the lines that begins with it.
pub open spec fn first_suffix(all: Seq<Seq<char>>, prefix: Seq<char>) -> Option<Seq<char>>
    decreases all.len(),
{
    if all.len() == 0 {
        None
    } else if has_prefix(all[0], prefix) {
        after_prefix(all[0], prefix)
    } else {
        first_suffix(all.skip(1), prefix)
    }
}

/// The cleaned value that follows `prefix` on the first line that begins with
/// it; none where it is blank.
pub open spec fn header_value(text: Seq<char>, prefix: Seq<char>) -> Option<Seq<char>> {
    match first_suffix(lines(text), prefix) {
        Some(value) => sanitized(value, MAX_TOOL_OUTPUT_PREVIEW_CHARS as nat),
        None => None,
    }
}

/// The cleaned values, without those that are blank.
pub open spec fn sanitized_all(values: Seq<Seq<char>>, max_chars: nat) -> Seq<Seq<char>>
    decreases values.len(),
{
    if values.len() == 0 {
        Seq::empty()
    } else {
        let before = sanitized_all(values.drop_last(), max_chars);
        match sanitized(values.last(), max_chars) {
            Some(value) => before.push(value),
            None => before,
        }
    }
}

/// The background job that a header describes.
pub open spec fn header_job(header: Seq<char>) -> Option<JobView> {
    let process_id = header_value(header, "Process running with session ID "@);
    if !lines(header).contains("Background mode: true"@) || process_id is None {
        None
    } else {
        Some(
            JobView {
                process_id: process_id->0,
                description: match header_value(header, "Background description: "@) {
                    Some(description) => description,
                    None => no_description(),
                },
                triggers: match header_value(header, "Background triggers: "@) {
                    Some(triggers) => sanitized_all(
                        fields(triggers, ','),
                        MAX_TOOL_OUTPUT_PREVIEW_CHARS as nat,
                    ),
                    None => Seq::empty(),
                },
                command: None,
                cwd: None,
                started_at_ms: None,
                log_path: header_value(header, "Background log: "@),
            },
        )
    }
}

/// The background job that a finished tool call has started.
pub open spec fn finished_job(input: ToolFinishInput) -> Option<JobView> {
    if input.tool_name.namespace is Some || input.tool_name.name@ != "exec_command"@ {
        None
    } else {
        match input.output_preview {
            Some(preview) => match exec_header(preview@) {
                Some(header) => header_job(header),
                None => None,
            },
            None => None,
        }
    }
}

/// Renders where a tool call came from.
pub fn format_tool_source(source: &ToolCallSource) -> (r: String)
    ensures
        r@ == source_text(*source),
{
    match source {
        ToolCallSource::Direct => {
            let r = String::new();
            assert(r@ =~= Seq::empty());
            r
        },
        ToolCallSource::CodeMode { cell_id, runtime_tool_call_id } => {
            let mut r = owned(" via code cell ");
            r.append(cell_id.as_str());
            r.append(", runtime call ");
            r.append(runtime_tool_call_id.as_str());
            r
        },
    }
}

/// Renders the line that records a finished tool call.
pub fn format_tool_finish_event(input: &ToolFinishInput) -> (r: String)
    ensures
        r@ == tool_finish_text(*input),
{
    let outcome = match input.outcome {
        ToolCallOutcome::Completed { success } => if success {
            "completed successfully"
        } else {
            "completed with a reported failure"
        },
        ToolCallOutcome::Blocked => "was blocked by host policy",
        ToolCallOutcome::Failed { handler_executed } => if handler_executed {
            "failed after its handler started"
        } else {
            "failed before its handler started"
        },
        ToolCallOutcome::Aborted => "was aborted",
    };
    let mut line = owned("Tool ");
    line.append(input.tool_name.label.as_str());
    line.append(" ");
    line.append(outcome);
    line.append(format_tool_source(&input.source).as_str());
    line.append(" (turn ");
    line.append(input.turn_id.as_str());
    line.append(", call ");
    line.append(input.call_id.as_str());
    line.append(")");
    let ghost head = line@;
    match &input.output_preview {
        Some(preview) => match sanitize_value(preview.as_str(), MAX_TOOL_OUTPUT_PREVIEW_CHARS) {
            Some(shown) => {
                line.append(". Output preview: ");
                line.append(shown.as_str());
            },
            None => {},
        },
        None => {},
    }
    assert(line@ =~= head + preview_text(opt_text(input.output_preview)));
    truncate_chars(line.as_str(), MAX_TOOL_EVENT_CHARS)
}

/// The part of a command's output that the host wrote.
pub fn unified_exec_output_header(preview: &str) -> (r: Option<Vec<char>>)
    ensures
        r matches Some(header) ==> exec_header(preview@) == Some(header@),
        r is None ==> exec_header(preview@) is None,
{
    let chars = to_chars(preview);
    let prefix = to_chars("Chunk ID: ");
    if !matches_at(chars.as_slice(), prefix.as_slice(), 0) {
        return None;
    }
    let ending = to_chars("\nOutput:");
    match find_chars(chars.as_slice(), ending.as_slice()) {
        Some(k) => {
            let header = sub_chars(chars.as_slice(), 0, k);
            assert(header@ =~= preview@.take(k as int));
            Some(header)
        },
        None => Some(chars),
    }
}

/// The cleaned value that follows `prefix` on the first line that begins with
/// it.
pub fn extract_header_line_suffix(text: &[char], prefix: &str) -> (r: Option<String>)
    ensures
        r matches Some(value) ==> header_value(text@, prefix@) == Some(value@),
        r is None ==> header_value(text@, prefix@) is None,
{
    let parts = split_lines(text);
    let head = to_chars(prefix);
    let ghost all = char_texts(parts@);
    let mut i: usize = 0;
    assert(all.skip(0) =~= all);
    while i < parts.len()
        invariant
            i <= parts.len(),
            all == char_texts(parts@),
            head@ == prefix@,
            first_suffix(all, prefix@) == first_suffix(all.skip(i as int), prefix@),
            all == lines(text@),
        decreases parts.len() - i,
    {
        assert(all.skip(i as int)[0] == parts@[i as int]@);
        assert(all.skip(i as int).skip(1) =~= all.skip(i + 1));
        match strip_prefix_chars(parts[i].as_slice(), head.as_slice()) {
            Some(value) => {
                let value = from_chars(value.as_slice());
                return sanitize_value(value.as_str(), MAX_TOOL_OUTPUT_PREVIEW_CHARS);
            },
            None => {},
        }
        i += 1;
    }
    None
}

fn has_line(text: &[char], line: &str) -> (r: bool)
    ensures
        r == lines(text@).contains(line@),
{
    let parts = split_lines(text);
    let wanted = to_chars(line);
    let ghost all = char_texts(parts@);
    let mut i: usize = 0;
    while i < parts.len()
        invariant
            i <= parts.len(),
            all == char_texts(parts@),
            all == lines(text@),
            wanted@ == line@,
            forall|j: int| 0 <= j < i ==> #[trigger] all[j] != line@,
        decreases parts.len() - i,
    {
        if chars_eq(parts[i].as_slice(), wanted.as_slice()) {
            assert(all[i as int] == line@);
            return true;
        }
        assert(all[i as int] != line@);
        i += 1;
    }
    false
}

fn split_triggers(triggers: &str) -> (r: Vec<String>)
    ensures
        texts(r@) == sanitized_all(
            fields(triggers@, ','),
            MAX_TOOL_OUTPUT_PREVIEW_CHARS as nat,
        ),
{
    let chars = to_chars(triggers);
    let parts = split_fields(chars.as_slice(), ',');
    let ghost all = char_texts(parts@);
    let mut r: Vec<String> = Vec::new();
    let mut i: usize = 0;
    assert(all.take(0) =~= Seq::empty());
    assert(texts(r@) =~= Seq::empty());
    while i < parts.len()
        invariant
            i <= parts.len(),
            all == char_texts(parts@),
            texts(r@) == sanitized_all(all.take(i as int), MAX_TOOL_OUTPUT_PREVIEW_CHARS as nat),
        decreases parts.len() - i,
    {
        assert(all.take(i + 1).drop_last() =~= all.take(i as int));
        assert(all.take(i + 1).last() == parts@[i as int]@);
        let part = from_chars(parts[i].as_slice());
        match sanitize_value(part.as_str(), MAX_TOOL_OUTPUT_PREVIEW_CHARS) {
            Some(value) => {
                proof {
                    lemma_texts_push(r@, value);
                }
                r.push(value);
            },
            None => {},
        }
        i += 1;
    }
    assert(all.take(i as int) =~= all);
    r
}

/// The background job that a finished tool call has started.
pub fn native_background_job_from_tool_finish(input: &ToolFinishInput) -> (r: Option<
    NativeBackgroundJob,
>)
    ensures
        r matches Some(job) ==> finished_job(*input) == Some(job@),
        r is None ==> finished_job(*input) is None,
{
    if input.tool_name.namespace.is_some() || !str_eq(
        input.tool_name.name.as_str(),
        "exec_command",
    ) {
        return None;
    }
    let header = match &input.output_preview {
        Some(preview) => match unified_exec_output_header(preview.as_str()) {
            Some(header) => header,
            None => {
                return None;
            },
        },
        None => {
            return None;
        },
    };
    let header = header.as_slice();
    if !has_line(header, "Background mode: true") {
        return None;
    }
    let process_id = match extract_header_line_suffix(header, "Process running with session ID ") {
        Some(process_id) => process_id,
        None => {
            return None;
        },
    };
    let description = match extract_header_line_suffix(header, "Background description: ") {
        Some(description) => description,
        None => owned("(no description recorded)"),
    };
    let triggers: Vec<String> = match extract_header_line_suffix(header, "Background triggers: ") {
        Some(triggers) => split_triggers(triggers.as_str()),
        None => Vec::new(),
    };
    proof {
        if header_value(header@, "Background triggers: "@) is None {
            assert(texts(triggers@) =~= Seq::empty());
        }
    }
    let log_path = extract_header_line_suffix(header, "Background log: ");
    Some(
        NativeBackgroundJob {
            process_id,
            description,
            triggers,
            command: None,
            cwd: None,
            started_at_ms: None,
            log_path,
        },
    )
}

/// What a command prints cannot pass for what the host wrote: whatever follows
/// the first output line is no part of the header.
pub proof fn lemma_output_is_not_header(header: Seq<char>, output: Seq<char>)
    requires
        has_prefix(header, "Chunk ID: "@),
        !occurs(header, "\nOutput:"@),
    ensures
        exec_header(header + "\nOutput:"@ + output) == Some(header),
{
    reveal_strlit("\nOutput:");
    let pat = "\nOutput:"@;
    let prefix = "Chunk ID: "@;
    let s = header + pat + output;
    let h = header.len() as int;
    assert(s.subrange(h, h + pat.len()) =~= pat);
    assert(occurs_at(s, pat, h));
    lemma_find_from(s, pat, 0);
    let k = find_from(s, pat, 0)->0;
    if k < h {
        if k + pat.len() <= h {
            assert(header.subrange(k, k + pat.len()) =~= s.subrange(k, k + pat.len()));
            assert(occurs_at(header, pat, k));
        } else {
            assert(s.subrange(k, k + pat.len())[h - k] == s[h]);
        }
    }
    assert(s.take(h) =~= header);
    assert(s.subrange(0, prefix.len() as int) =~= header.subrange(0, prefix.len() as int));
}

} // verus!
