//! What the host reports about commands that it runs.

use vstd::prelude::*;

verus! {

/// How a command ended.
#[derive(Clone, Copy, Debug, PartialEq, Eq, Structural)]
pub enum ExecCommandStatus {
    Completed,
    Failed,
    Declined,
}

impl ExecCommandStatus {
    /// The status' name.
    pub open spec fn name(self) -> Seq<char> {
        match self {
            ExecCommandStatus::Completed => "Completed"@,
            ExecCommandStatus::Failed => "Failed"@,
            ExecCommandStatus::Declined => "Declined"@,
        }
    }

    /// The status' name.
    pub fn label(self) -> (r: &'static str)
        ensures
            r@ == self.name(),
    {
        match self {
            ExecCommandStatus::Completed => "Completed",
            ExecCommandStatus::Failed => "Failed",
            ExecCommandStatus::Declined => "Declined",
        }
    }
}

/// A command was started.
pub struct ExecCommandBeginEvent {
    pub process_id: Option<String>,
    pub started_at_ms: i64,
    pub command: Vec<String>,
    pub cwd: String,
    pub background_description: Option<String>,
    pub background_triggers: Vec<String>,
}

/// A command ended.
pub struct ExecCommandEndEvent {
    pub process_id: Option<String>,
    pub command: Vec<String>,
    pub cwd: String,
    pub aggregated_output: String,
    pub exit_code: i32,
    pub status: ExecCommandStatus,
}

/// A trigger of a background command fired.
pub struct ExecBackgroundTriggerEvent {
    pub call_id: String,
    pub process_id: String,
    pub turn_id: String,
    pub triggered_at_ms: i64,
    pub command: Vec<String>,
    pub cwd: String,
    pub description: Option<String>,
    pub declared_triggers: Vec<String>,
    pub trigger: String,
    pub reason: String,
    pub output_tail: String,
}

} // verus!
