//! Running external commands: how their failures are classified and described.
//!
//! The program runs the commands; the decisions about what a failure means
//! stand here.

use vstd::prelude::*;

verus! {

/// How running an external program failed.
#[derive(Debug, Clone, Copy, PartialEq, Eq, Structural)]
pub enum CmdErrorKind {
    /// The program could not be started.
    Spawn,
    /// Waiting for the program failed.
    Wait,
    /// The program exited unsuccessfully; its output was not captured.
    ExitCodeStatus,
    /// The program exited unsuccessfully; its output was captured.
    ExitCodeOutput,
    /// The program's output is not valid UTF-8.
    Utf8,
    /// The program's output could not be decoded as JSON.
    Json,
}

impl CmdErrorKind {
    /// Whether the program ran and exited unsuccessfully.
    pub fn is_exit_code_error(&self) -> (r: bool)
        ensures
            r == (*self == CmdErrorKind::ExitCodeStatus || *self == CmdErrorKind::ExitCodeOutput),
    {
        match self {
            CmdErrorKind::Spawn => false,
            CmdErrorKind::Wait => false,
            CmdErrorKind::ExitCodeStatus => true,
            CmdErrorKind::ExitCodeOutput => true,
            CmdErrorKind::Utf8 => false,
            CmdErrorKind::Json => false,
        }
    }

    /// Whether the program's output could not be decoded as JSON.
    pub fn is_json_error(&self) -> (r: bool)
        ensures
            r == (*self == CmdErrorKind::Json),
    {
        match self {
            CmdErrorKind::Json => true,
            _ => false,
        }
    }

    /// Whether the program's output was captured and is part of the error.
    pub fn has_output(&self) -> (r: bool)
        ensures
            r == (*self == CmdErrorKind::ExitCodeOutput || *self == CmdErrorKind::Utf8 || *self
                == CmdErrorKind::Json),
    {
        match self {
            CmdErrorKind::Spawn => false,
            CmdErrorKind::Wait => false,
            CmdErrorKind::ExitCodeStatus => false,
            CmdErrorKind::ExitCodeOutput => true,
            CmdErrorKind::Utf8 => true,
            CmdErrorKind::Json => true,
        }
    }

    /// Whether a failed `nix eval` is reported and skipped rather than ending
    /// the program: when Nix exited unsuccessfully or printed something else than
    /// the expected JSON.
    pub fn eval_failure_is_skipped(&self) -> (r: bool)
        ensures
            r == (*self == CmdErrorKind::ExitCodeStatus || *self == CmdErrorKind::ExitCodeOutput
                || *self == CmdErrorKind::Json),
    {
        self.is_exit_code_error() || self.is_json_error()
    }
}

/// The description of a failure of program `program` (as shown on a command
/// line), which exited with `status` where it exited.
pub open spec fn failure_message(kind: CmdErrorKind, program: Seq<char>, status: Seq<char>) -> Seq<char> {
    match kind {
        CmdErrorKind::Spawn => "failed to execute external program "@ + program,
        CmdErrorKind::Wait => "failed to wait for external program "@ + program + " to finish"@,
        CmdErrorKind::ExitCodeStatus => "external program "@ + program
            + " did not finish successfully ("@ + status + ")"@,
        CmdErrorKind::ExitCodeOutput => "external program "@ + program
            + " did not finish successfully ("@ + status + ")"@,
        CmdErrorKind::Utf8 => "output of external program "@ + program + " is not valid utf-8"@,
        CmdErrorKind::Json => "failed to decode output of external program "@ + program,
    }
}

/// Describes a failure of an external program.
pub fn error_message(kind: CmdErrorKind, program: &str, status: &str) -> (r: String)
    ensures
        r@ == failure_message(kind, program@, status@),
{
    match kind {
        CmdErrorKind::Spawn => {
            let mut m = String::from_str("failed to execute external program ");
            m.append(program);
            m
        },
        CmdErrorKind::Wait => {
            let mut m = String::from_str("failed to wait for external program ");
            m.append(program);
            m.append(" to finish");
            m
        },
        CmdErrorKind::ExitCodeStatus | CmdErrorKind::ExitCodeOutput => {
            let mut m = String::from_str("external program ");
            m.append(program);
            m.append(" did not finish successfully (");
            m.append(status);
            m.append(")");
            m
        },
        CmdErrorKind::Utf8 => {
            let mut m = String::from_str("output of external program ");
            m.append(program);
            m.append(" is not valid utf-8");
            m
        },
        CmdErrorKind::Json => {
            let mut m = String::from_str("failed to decode output of external program ");
            m.append(program);
            m
        },
    }
}

/// One environment override of a command: a variable set to a value, or unset.
pub open spec fn env_line(name: Seq<char>, value: Option<Seq<char>>) -> Seq<char> {
    match value {
        Some(v) => name + "="@ + v + seq!['\n'],
        None => "unset "@ + name + seq!['\n'],
    }
}

pub open spec fn env_text(entries: Seq<(Seq<char>, Option<Seq<char>>)>) -> Seq<char>
    decreases entries.len(),
{
    if entries.len() == 0 {
        Seq::empty()
    } else {
        env_text(entries.drop_last()) + env_line(entries.last().0, entries.last().1)
    }
}

pub open spec fn env_entries_view(v: Seq<(String, Option<String>)>) -> Seq<(Seq<char>, Option<Seq<char>>)> {
    v.map_values(|e: (String, Option<String>)| (e.0@, match e.1 {
        Some(s) => Some(s@),
        None => None,
    }))
}

/// Shows the environment overrides of a command, one per line.
pub fn display_env(entries: &Vec<(String, Option<String>)>) -> (r: String)
    ensures
        r@ == env_text(env_entries_view(entries@)),
{
    let ghost ev = env_entries_view(entries@);
    let mut r = String::new();
    let mut i: usize = 0;
    while i < entries.len()
        invariant
            i <= entries@.len(),
            ev == env_entries_view(entries@),
            r@ == env_text(ev.take(i as int)),
        decreases entries@.len() - i,
    {
        proof {
            assert(ev.take(i + 1).drop_last() == ev.take(i as int));
            assert(ev.take(i + 1).last() == ev[i as int]);
        }
        match &entries[i].1 {
            Some(v) => {
                r.append(entries[i].0.as_str());
                r.append("=");
                r.append(v.as_str());
            },
            None => {
                r.append("unset ");
                r.append(entries[i].0.as_str());
            },
        }
        r.push('\n');
        i = i + 1;
    }
    proof {
        assert(ev.take(i as int) == ev);
    }
    r
}

}
