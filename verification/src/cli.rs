//! Command-line options, command results and execution context.

use vstd::prelude::*;
use crate::text::{owned, str_eq};
use crate::types::DEFAULT_DATA_DIR;

verus! {

/// Global command-line options.
#[derive(Debug, Clone)]
pub struct CliApp {
    pub verbose: bool,
    pub quiet: bool,
    pub data_dir: String,
    pub format: String,
    pub config: Option<String>,
}

impl CliApp {
    /// Output format is `json`.
    pub fn is_json(&self) -> (r: bool)
        ensures
            r == (self.format@ == "json"@),
    {
        str_eq(self.format.as_str(), "json")
    }

    /// Output format is `yaml`.
    pub fn is_yaml(&self) -> (r: bool)
        ensures
            r == (self.format@ == "yaml"@),
    {
        str_eq(self.format.as_str(), "yaml")
    }

    /// Output format is `text`.
    pub fn is_text(&self) -> (r: bool)
        ensures
            r == (self.format@ == "text"@),
    {
        str_eq(self.format.as_str(), "text")
    }
}

impl Default for CliApp {
    /// Quiet off, verbose off, data directory `Datos`, text output.
    fn default() -> (a: CliApp)
        ensures
            !a.verbose,
            !a.quiet,
            a.data_dir@ == DEFAULT_DATA_DIR@,
            a.format@ == "text"@,
            a.config is None,
    {
        CliApp { verbose: false, quiet: false, data_dir: owned(DEFAULT_DATA_DIR), format: owned("text"), config: None }
    }
}

/// Outcome of a command.
#[derive(Debug)]
pub struct CliResult {
    pub success: bool,
    pub exit_code: i32,
    pub message: Option<String>,
    pub duration_ms: u64,
}

impl CliResult {
    /// Success with exit code 0.
    pub fn ok() -> (r: CliResult)
        ensures
            r.success && r.exit_code == 0 && r.message is None && r.duration_ms == 0,
    {
        CliResult { success: true, exit_code: 0, message: None, duration_ms: 0 }
    }

    /// Failure with the given exit code and message.
    pub fn error(code: i32, msg: &str) -> (r: CliResult)
        ensures
            !r.success && r.exit_code == code && r.duration_ms == 0,
            r.message matches Some(m) && m@ == msg@,
    {
        CliResult { success: false, exit_code: code, message: Some(owned(msg)), duration_ms: 0 }
    }

    /// The same result with the given duration.
    pub fn with_duration(self, ms: u64) -> (r: CliResult)
        ensures
            r == (CliResult { duration_ms: ms, ..self }),
    {
        CliResult { duration_ms: ms, ..self }
    }
}

#[verifier::external_type_specification]
#[verifier::external_body]
pub struct ExInstant(std::time::Instant);

/// The current instant (`Instant::now`).
#[verifier::external_body]
fn instant_now() -> (t: std::time::Instant) {
    std::time::Instant::now()
}

/// Milliseconds elapsed since `t` (`Instant::elapsed`), truncated to `u64`.
#[verifier::external_body]
fn elapsed_millis(t: &std::time::Instant) -> (ms: u64) {
    t.elapsed().as_millis() as u64
}

/// Context of a command execution.
#[derive(Debug)]
pub struct ExecutionContext {
    pub start_time: std::time::Instant,
    pub command: String,
    pub args: Vec<String>,
}

impl ExecutionContext {
    /// A context for `command`, started now, without arguments.
    pub fn new(command: &str) -> (c: ExecutionContext)
        ensures
            c.command@ == command@,
            c.args@.len() == 0,
    {
        ExecutionContext { start_time: instant_now(), command: owned(command), args: Vec::new() }
    }

    /// Milliseconds since the context started; the value depends on the clock.
    pub fn elapsed_ms(&self) -> (ms: u64) {
        elapsed_millis(&self.start_time)
    }
}

} // verus!
