//! Script execution requests and the rule choosing an interpreter.
//!
//! Spawning the process is I/O and happens outside; the library decides
//! which interpreter a script type maps to, and rejects unknown types.

use vstd::prelude::*;

verus! {

use crate::text::str_eq;

/// A request to run one script.
pub struct ScriptExecutionRequest {
    pub script_path: String,
    pub script_type: String,
    pub args: Vec<String>,
    pub working_dir: Option<String>,
    pub timeout_ms: Option<u64>,
    pub environment: Option<Vec<(String, String)>>,
}

/// Outcome of one script run.
pub struct ScriptExecutionResult {
    pub stdout: String,
    pub stderr: String,
    pub exit_code: i32,
    pub execution_time_ms: u64,
    pub success: bool,
    pub error: Option<String>,
}

/// Chooses interpreters for scripts.
pub struct ScriptExecutor;

/// The interpreter command for a script type.
pub open spec fn spec_interpreter_for(t: Seq<char>) -> Option<Seq<char>> {
    if t == "python"@ {
        Some("python3"@)
    } else if t == "bash"@ || t == "sh"@ {
        Some("bash"@)
    } else if t == "nodejs"@ || t == "javascript"@ {
        Some("node"@)
    } else {
        None
    }
}

impl ScriptExecutor {
    /// Interpreter command for a script type; `None` for unsupported
    /// types, which a run must reject.
    pub fn interpreter_for(script_type: &str) -> (r: Option<&'static str>)
        ensures
            r.deep_view() == spec_interpreter_for(script_type@),
    {
        if str_eq(script_type, "python") {
            Some("python3")
        } else if str_eq(script_type, "bash") || str_eq(script_type, "sh") {
            Some("bash")
        } else if str_eq(script_type, "nodejs") || str_eq(script_type, "javascript") {
            Some("node")
        } else {
            None
        }
    }
}

} // verus!
