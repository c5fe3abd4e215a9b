//! The command-line interface: its options as plain values, and the decisions
//! that do not need the outside world.

use vstd::prelude::*;

pub mod push;
pub mod status;

use push::PushArgs;
use status::StatusArgs;

verus! {

/// Utilities for working with `deploy-rs`.
pub struct DeployUtilsApp {
    pub subcommand: Subcommand,
    pub logging: LoggingOptions,
}

pub enum Subcommand {
    Push(PushArgs),
    Status(StatusArgs),
}

/// Values that replace each profile's settings.
pub struct ProfileOptionOverrides {
    pub hostname: Option<String>,
    pub profile_user: Option<String>,
    pub ssh_user: Option<String>,
    pub ssh_opts: Option<Vec<String>>,
    pub fast_connection: Option<bool>,
}

/// How many times `--quiet` and `--verbose` were given.
pub struct LoggingOptions {
    pub quiet: u8,
    pub verbose: u8,
}

/// Verbosity of the log, from least to most verbose.
#[derive(Debug, Clone, Copy, PartialEq, Eq, Structural)]
pub enum LogLevel {
    Error,
    Warn,
    Info,
    Debug,
    Trace,
}

/// The log level for `verbose` minus `quiet` steps of extra verbosity:
/// `Info` at zero, one level per step, and no further than `Error` and `Trace`.
pub open spec fn log_level_for(steps: int) -> LogLevel {
    if steps <= -2 {
        LogLevel::Error
    } else if steps == -1 {
        LogLevel::Warn
    } else if steps == 0 {
        LogLevel::Info
    } else if steps == 1 {
        LogLevel::Debug
    } else {
        LogLevel::Trace
    }
}

/// The rank of a level, from `Error` (0) to `Trace` (4).
pub open spec fn level_rank(l: LogLevel) -> int {
    match l {
        LogLevel::Error => 0,
        LogLevel::Warn => 1,
        LogLevel::Info => 2,
        LogLevel::Debug => 3,
        LogLevel::Trace => 4,
    }
}

impl DeployUtilsApp {
    /// The log level that applies unless the environment says otherwise.
    pub fn default_log_level(&self) -> (r: LogLevel)
        ensures
            r == log_level_for(self.logging.verbose - self.logging.quiet),
    {
        let steps: i16 = self.logging.verbose as i16 - self.logging.quiet as i16;
        if steps <= -2 {
            LogLevel::Error
        } else if steps == -1 {
            LogLevel::Warn
        } else if steps == 0 {
            LogLevel::Info
        } else if steps == 1 {
            LogLevel::Debug
        } else {
            LogLevel::Trace
        }
    }
}

/// Each `--verbose` raises and each `--quiet` lowers the level by one step from
/// `Info`, within the range of levels; one of each cancel out.
pub proof fn law_log_level_steps(quiet: u8, verbose: u8)
    ensures
        level_rank(log_level_for(verbose - quiet)) == if verbose - quiet + 2 < 0 {
            0
        } else if verbose - quiet + 2 > 4 {
            4
        } else {
            verbose - quiet + 2
        },
        quiet < u8::MAX && verbose < u8::MAX ==> log_level_for((verbose + 1) - (quiet + 1))
            == log_level_for(verbose - quiet),
{
}

}
