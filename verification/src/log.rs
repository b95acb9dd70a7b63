//! Logging configuration, carried as an explicit handle.
//!
//! The log threshold is set once at boot and read on every log call; it
//! is modeled as a value the composition root passes around, not as
//! hidden global state, so there is nothing to race on.

use vstd::prelude::*;

verus! {

/// Severity of a log message, least severe first.
#[derive(Clone, Copy, Debug, PartialEq, Eq, Structural)]
pub enum LogLevel {
    Debug,
    Info,
    Warn,
    Error,
}

/// Numeric rank of a severity, for threshold comparison.
pub open spec fn severity(level: LogLevel) -> int {
    match level {
        LogLevel::Debug => 0,
        LogLevel::Info => 1,
        LogLevel::Warn => 2,
        LogLevel::Error => 3,
    }
}

/// The logging handle: messages at or above its threshold are emitted.
pub struct Logger {
    level: LogLevel,
}

impl Logger {
    /// Current threshold.
    pub closed spec fn spec_level(self) -> LogLevel {
        self.level
    }

    /// A message of the given severity passes the threshold if and only
    /// if it is at least as severe.
    pub fn enabled(&self, level: LogLevel) -> (b: bool)
        ensures
            b == (severity(level) >= severity(self.spec_level())),
    {
        severity_rank(level) >= severity_rank(self.level)
    }
}

/// Executable severity rank.
fn severity_rank(level: LogLevel) -> (r: u8)
    ensures
        r == severity(level),
{
    match level {
        LogLevel::Debug => 0,
        LogLevel::Info => 1,
        LogLevel::Warn => 2,
        LogLevel::Error => 3,
    }
}

/// Creates a handle with the given threshold.
pub fn init(level: LogLevel) -> (r: Logger)
    ensures
        r.spec_level() == level,
{
    Logger { level }
}

/// Creates a handle that emits everything.
pub fn init_debug() -> (r: Logger)
    ensures
        r.spec_level() == LogLevel::Debug,
{
    init(LogLevel::Debug)
}

/// Creates a handle that emits info and above.
pub fn init_info() -> (r: Logger)
    ensures
        r.spec_level() == LogLevel::Info,
{
    init(LogLevel::Info)
}

/// Creates a handle that emits warnings and above.
pub fn init_warn() -> (r: Logger)
    ensures
        r.spec_level() == LogLevel::Warn,
{
    init(LogLevel::Warn)
}

/// Creates a handle that emits errors only.
pub fn init_error() -> (r: Logger)
    ensures
        r.spec_level() == LogLevel::Error,
{
    init(LogLevel::Error)
}

/// Changes a handle's threshold.
pub fn set_log_level(logger: &mut Logger, level: LogLevel)
    ensures
        final(logger).spec_level() == level,
{
    logger.level = level;
}

/// Reads a handle's threshold.
pub fn get_log_level(logger: &Logger) -> (level: LogLevel)
    ensures
        level == logger.spec_level(),
{
    logger.level
}

} // verus!
