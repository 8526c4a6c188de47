//! Commands sent to the sandbox for execution.

use vstd::prelude::*;

use crate::etc::JudgeCfg;
use crate::sandbox::file::FileHandle;

verus! {

/// One command to run in the sandbox: its argv, environment, limits, input
/// binding and file schema.  The wall-clock limit the sandbox receives is
/// twice [`Cmd::time_limit_ns`].
#[derive(Debug, Clone)]
pub struct Cmd {
    /// Command line.
    pub args: Vec<String>,
    /// Environment variables.
    pub env: Vec<String>,
    /// CPU time limit in nanoseconds.
    pub time_limit_ns: u64,
    /// Memory limit in bytes.
    pub memory_limit: u64,
    /// Process count limit.
    pub proc_limit: u64,
    /// Cap on collected standard output, in bytes.
    pub stdout_limit: u64,
    /// Cap on collected standard error, in bytes.
    pub stderr_limit: u64,
    /// File bound to standard input; `None` binds an empty file.
    pub stdin: Option<FileHandle>,
    /// Files materialised in the execution directory, by name.
    pub copy_in: Vec<(String, FileHandle)>,
    /// Files to export inline after execution.
    pub copy_out: Vec<String>,
    /// Files to keep sandbox-side after execution, returned as new ids.
    pub copy_out_cached: Vec<String>,
}

impl Cmd {
    /// A command with every field at its configured default: no argv, the
    /// configured environment and limits, empty input, no files.
    pub fn with_defaults(c: &JudgeCfg) -> (r: Cmd)
        ensures
            r.args@.len() == 0,
            r.env.deep_view() == c.env.deep_view(),
            r.time_limit_ns == c.time_limit_ns,
            r.memory_limit == c.memory_limit,
            r.proc_limit == c.process_limit,
            r.stdout_limit == c.stdout_limit,
            r.stderr_limit == c.stderr_limit,
            r.stdin is None,
            r.copy_in@.len() == 0,
            r.copy_out@.len() == 0,
            r.copy_out_cached@.len() == 0,
    {
        Cmd {
            args: Vec::new(),
            env: c.env.clone(),
            time_limit_ns: c.time_limit_ns,
            memory_limit: c.memory_limit,
            proc_limit: c.process_limit,
            stdout_limit: c.stdout_limit,
            stderr_limit: c.stderr_limit,
            stdin: None,
            copy_in: Vec::new(),
            copy_out: Vec::new(),
            copy_out_cached: Vec::new(),
        }
    }

    /// The wall-clock limit belonging to this command: twice the CPU limit,
    /// saturating at the largest representable value.
    pub fn clock_limit_ns(&self) -> (r: u64)
        ensures
            self.time_limit_ns * 2 <= u64::MAX ==> r == self.time_limit_ns * 2,
            self.time_limit_ns * 2 > u64::MAX ==> r == u64::MAX,
    {
        if self.time_limit_ns <= u64::MAX / 2 {
            self.time_limit_ns * 2
        } else {
            u64::MAX
        }
    }
}

/// One end of a pipe between two commands of a piped request: which
/// command and which of its file descriptors.
#[derive(Debug, Clone, Copy, PartialEq, Eq, Structural)]
pub struct PipeIndex {
    /// Index of the command within the request.
    pub index: u64,
    /// File descriptor number of that command.
    pub fd: u64,
}

/// A pipe wired between two commands of a piped request.
#[derive(Debug, Clone)]
pub struct PipeMap {
    /// The end the pipe reads into.
    pub input: PipeIndex,
    /// The end the pipe writes out of.
    pub output: PipeIndex,
    /// Keep feeding the input end after the output end closes.
    pub proxy: bool,
    /// Collect the proxied content under this name.
    pub name: Option<String>,
    /// Cap on the collected content, in bytes.
    pub max: Option<u64>,
}

/// A request to the sandbox: one command, or two commands joined by pipes.
/// The piped form is reserved for interactive problems and is not built by
/// the judging core yet.
#[derive(Debug, Clone)]
pub enum Request {
    Run(Cmd),
    RunPiped(Cmd, Cmd, Vec<PipeMap>),
}

} // verus!
