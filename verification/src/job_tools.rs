//! The tools with which the model observes and ends background sessions.

use vstd::prelude::*;

use crate::text::{owned, texts};
use crate::tool_schema::{
    argument, tool, ArgumentType, ArgumentView, ToolArgument, ToolDefinition, ToolView, TypeView,
};

verus! {

pub const JOB_OBSERVE_TOOL_NAME: &'static str = "job_observe";

pub const JOB_CANCEL_TOOL_NAME: &'static str = "job_cancel";

pub const OBSERVE_DESCRIPTION: &'static str = "Observe background exec sessions locally, without polling. One call returns one bounded result: the harness does the waiting and file reading, so watching a long-running job costs no turns between state changes.\nPrefer `wait` (with a generous timeout) or `tail` over polling with empty `write_stdin` calls. Every session writes a durable log file that outlives the process; `tail` and `read` work on finished jobs too.";

pub const ACTION_DESCRIPTION: &'static str = "Required. `list`: all live sessions. `status`: one session's state, metadata, and log file. `tail`: last lines of the session's durable log (works after exit too). `read`: a byte range of the log. `wait`: block locally until the session exits or the timeout elapses, then return its exit code and recent output.";

pub const LIMIT_DESCRIPTION: &'static str = "`read` only. Maximum bytes to return. Defaults to 8192; clamped to [1, 16384].";

pub const OFFSET_DESCRIPTION: &'static str = "`read` only. Byte offset into the log file to start reading from. Defaults to 0.";

pub const SESSION_DESCRIPTION: &'static str = "The exec session id. Required for every action except `list`.";

pub const TAIL_DESCRIPTION: &'static str = "`tail` only. Number of trailing log lines to return. Defaults to 50; clamped to [1, 400].";

pub const TIMEOUT_DESCRIPTION: &'static str = "`wait` only. How long to wait for exit, in milliseconds. Defaults to 30000; clamped to [1000, 600000]. On timeout the session keeps running and you can wait again.";

pub const CANCEL_DESCRIPTION: &'static str = "Terminate a background exec session. The session's durable log file is kept.";

pub const CANCEL_SESSION_DESCRIPTION: &'static str = "The exec session id to terminate.";

/// An integer argument.
pub open spec fn integer(name: Seq<char>, description: Seq<char>) -> ArgumentView {
    ArgumentView { name, argument_type: TypeView::Integer, description }
}

/// The tool that observes sessions.
pub open spec fn observe_tool() -> ToolView {
    ToolView {
        name: JOB_OBSERVE_TOOL_NAME@,
        description: OBSERVE_DESCRIPTION@,
        strict: false,
        arguments: seq![
            ArgumentView {
                name: "action"@,
                argument_type: TypeView::TextEnum(
                    seq!["list"@, "status"@, "tail"@, "read"@, "wait"@],
                ),
                description: ACTION_DESCRIPTION@,
            },
            integer("limit_bytes"@, LIMIT_DESCRIPTION@),
            integer("offset_bytes"@, OFFSET_DESCRIPTION@),
            integer("session_id"@, SESSION_DESCRIPTION@),
            integer("tail_lines"@, TAIL_DESCRIPTION@),
            integer("timeout_ms"@, TIMEOUT_DESCRIPTION@),
        ],
        required: seq!["action"@],
        additional_properties: false,
    }
}

/// The tool that ends a session.
pub open spec fn cancel_tool() -> ToolView {
    ToolView {
        name: JOB_CANCEL_TOOL_NAME@,
        description: CANCEL_DESCRIPTION@,
        strict: false,
        arguments: seq![integer("session_id"@, CANCEL_SESSION_DESCRIPTION@)],
        required: seq!["session_id"@],
        additional_properties: false,
    }
}

/// The tool that observes sessions.
pub fn create_job_observe_tool() -> (r: ToolDefinition)
    ensures
        r@ == observe_tool(),
{
    let actions: Vec<String> = vec![
        owned("list"),
        owned("status"),
        owned("tail"),
        owned("read"),
        owned("wait"),
    ];
    assert(texts(actions@) =~= seq!["list"@, "status"@, "tail"@, "read"@, "wait"@]);
    let arguments: Vec<ToolArgument> = vec![
        argument("action", ArgumentType::TextEnum(actions), ACTION_DESCRIPTION),
        argument("limit_bytes", ArgumentType::Integer, LIMIT_DESCRIPTION),
        argument("offset_bytes", ArgumentType::Integer, OFFSET_DESCRIPTION),
        argument("session_id", ArgumentType::Integer, SESSION_DESCRIPTION),
        argument("tail_lines", ArgumentType::Integer, TAIL_DESCRIPTION),
        argument("timeout_ms", ArgumentType::Integer, TIMEOUT_DESCRIPTION),
    ];
    let required: Vec<String> = vec![owned("action")];
    let r = tool(JOB_OBSERVE_TOOL_NAME, OBSERVE_DESCRIPTION, arguments, required);
    assert(r@.required =~= observe_tool().required);
    assert(r@.arguments =~= observe_tool().arguments);
    r
}

/// The tool that ends a session.
pub fn create_job_cancel_tool() -> (r: ToolDefinition)
    ensures
        r@ == cancel_tool(),
{
    let arguments: Vec<ToolArgument> = vec![
        argument("session_id", ArgumentType::Integer, CANCEL_SESSION_DESCRIPTION),
    ];
    let required: Vec<String> = vec![owned("session_id")];
    let r = tool(JOB_CANCEL_TOOL_NAME, CANCEL_DESCRIPTION, arguments, required);
    assert(r@.required =~= cancel_tool().required);
    assert(r@.arguments =~= cancel_tool().arguments);
    r
}

} // verus!
