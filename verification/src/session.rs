//! A session-log record as the library reads it: when it was written, the
//! turn it belongs to, and the event with its text fields and counts.
use vstd::prelude::*;
use crate::dashboard::panels::TaskState;

verus! {

/// A tool-call argument value: a JSON string, or any other JSON value in
/// its compact text form.
pub enum ArgValue {
    Str(String),
    Json(String),
}

/// One argument of a tool call, in the order the call lists them.
pub struct ToolArg {
    pub key: String,
    pub value: ArgValue,
}

/// One event of an executor session log. A parsed tool call carries its
/// name and arguments (none when they are not a JSON object); parse
/// failures and diagnostics carry the text the log holds for them.
pub enum SessionEvent {
    SessionStart { session_id: String, model: String, phase: String },
    Prompt { rendered: String },
    Completion { raw: String },
    Parsed { tool_name: String, arguments: Vec<ToolArg> },
    ParseFailed { raw: String, feedback: String },
    ToolResult { name: String, succeeded: bool, output_preview: String },
    Verify { diagnostics: Vec<String> },
    HardFail { reason: String },
    Progress { turn: usize, stage: String, files_changed: Vec<String>, message: String },
    SessionEnd { status: String, turns: usize },
    Metrics { input_tokens: u64, output_tokens: u64 },
    Compaction { tokens_before: u64, tokens_after: u64 },
    OutputFiltered { tokens_before: u64, tokens_after: u64, filter: String },
    ReadEvicted { reads_evicted: u64, tokens_reclaimed: u64 },
    ReadDeduped { tokens_saved: u64, prior_turn: u64 },
    TaskUpdate { id: String, title: String, state: TaskState },
    NoveltySample { window: u64, distinct_targets: u64 },
}

/// A timestamped session-log record.
pub struct SessionRecord {
    pub ts: u64,
    pub turn: usize,
    pub event: SessionEvent,
}

} // verus!
