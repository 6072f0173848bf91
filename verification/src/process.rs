//! Child process specifications and how the trace agent is configured.
use vstd::prelude::*;
use crate::logging::LogLevel;
use crate::pipe;
use crate::text;

verus! {

broadcast use vstd::string::group_string_axioms;

/// Specification of a subprocess to manage.
pub struct ProcessSpec {
    /// Human-readable name used in logs.
    pub name: &'static str,
    /// Executable path or binary name.
    pub program: String,
    /// Command-line arguments.
    pub args: Vec<String>,
}

impl Clone for ProcessSpec {
    fn clone(&self) -> (r: Self)
        ensures
            r.name@ == self.name@,
            r.program@ == self.program@,
            r.args@ == self.args@,
    {
        let mut args: Vec<String> = Vec::new();
        let mut i: usize = 0;
        while i < self.args.len()
            invariant
                i <= self.args@.len(),
                args@ == self.args@.take(i as int),
            decreases self.args@.len() - i,
        {
            args.push(self.args[i].clone());
            assert(args@ =~= self.args@.take(i + 1));
            i = i + 1;
        }
        assert(args@ =~= self.args@);
        ProcessSpec { name: self.name, program: self.program.clone(), args }
    }
}

impl ProcessSpec {
    pub fn new(name: &'static str, program: String, args: Vec<String>) -> (s: Self)
        ensures
            s.name == name,
            s.program == program,
            s.args == args,
    {
        Self { name, program, args }
    }

    /// Whether this is the trace agent (name `trace-agent`).
    pub fn is_trace_agent(&self) -> (b: bool)
        ensures
            b == (self.name@ == "trace-agent"@),
    {
        text::str_eq(self.name, "trace-agent")
    }
}

/// The main agent's specification: present only when the agent is enabled.
pub fn agent_spec_for(enabled: bool, program: String, args: Vec<String>) -> (s: Option<ProcessSpec>)
    ensures
        enabled ==> (s matches Some(p) && (p.name@ == "agent"@ && p.program == program && p.args
            == args)),
        !enabled ==> s is None,
{
    if enabled {
        Some(ProcessSpec::new("agent", program, args))
    } else {
        None
    }
}

/// The trace agent's specification.
pub fn trace_spec_for(program: String, args: Vec<String>) -> (s: ProcessSpec)
    ensures
        s.name@ == "trace-agent"@,
        s.program == program,
        s.args == args,
{
    ProcessSpec::new("trace-agent", program, args)
}

/// Whether child processes inherit stdout/stderr: when debug logging is on,
/// or the configured level is `Debug`; otherwise their output is discarded.
pub fn child_stdio_inherit(debug_enabled: bool, level: LogLevel) -> (b: bool)
    ensures
        b == (debug_enabled || level.rank() >= LogLevel::Debug.rank()),
{
    debug_enabled || level.verbosity() >= 3
}

/// Environment for a trace agent on Unix: TCP receiver off, receiving on
/// the configured socket.
pub fn trace_agent_env_unix(uds_path: &str) -> (env: Vec<(String, String)>)
    ensures
        env@.len() == 2,
        env@[0].0@ == "DD_APM_RECEIVER_PORT"@ && env@[0].1@ == "0"@,
        env@[1].0@ == "DD_APM_RECEIVER_SOCKET"@ && env@[1].1@ == uds_path@,
{
    let mut env: Vec<(String, String)> = Vec::new();
    env.push((text::owned("DD_APM_RECEIVER_PORT"), text::owned("0")));
    env.push((text::owned("DD_APM_RECEIVER_SOCKET"), text::owned(uds_path)));
    env
}

/// Environment for a trace agent on Windows: TCP receiver off, receiving on
/// the configured pipe (named without the `\\.\pipe\` prefix).
pub fn trace_agent_env_windows(pipe_name: &str) -> (env: Vec<(String, String)>)
    ensures
        env@.len() == 2,
        env@[0].0@ == "DD_APM_RECEIVER_PORT"@ && env@[0].1@ == "0"@,
        env@[1].0@ == "DD_APM_WINDOWS_PIPE_NAME"@ && env@[1].1@ == (if pipe::has_pipe_prefix(
            pipe_name@,
        ) {
            pipe_name@.subrange(9, pipe_name@.len() as int)
        } else {
            pipe_name@
        }),
{
    let mut env: Vec<(String, String)> = Vec::new();
    env.push((text::owned("DD_APM_RECEIVER_PORT"), text::owned("0")));
    env.push((text::owned("DD_APM_WINDOWS_PIPE_NAME"), pipe::strip_pipe_prefix(pipe_name)));
    env
}

} // verus!
