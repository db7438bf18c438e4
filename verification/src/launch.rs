//! Settings of the server's command line.

use vstd::prelude::*;

verus! {

/// Logging verbosity.
#[derive(Copy, Clone, Debug, PartialEq, Eq)]
pub enum LogLevel {
    Error,
    Warn,
    Info,
    Debug,
    Trace,
}

impl LogLevel {
    /// The level as a log filter directive.
    pub fn as_filter(self) -> (filter: &'static str)
        ensures
            filter@ == (match self {
                LogLevel::Error => "error"@,
                LogLevel::Warn => "warn"@,
                LogLevel::Info => "info"@,
                LogLevel::Debug => "debug"@,
                LogLevel::Trace => "trace"@,
            }),
    {
        match self {
            LogLevel::Error => "error",
            LogLevel::Warn => "warn",
            LogLevel::Info => "info",
            LogLevel::Debug => "debug",
            LogLevel::Trace => "trace",
        }
    }
}

impl Default for LogLevel {
    fn default() -> (level: LogLevel)
        ensures
            level == LogLevel::Info,
    {
        LogLevel::Info
    }
}

} // verus!
