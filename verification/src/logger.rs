//! Which diagnostics are written: a logger lets through what is at least as
//! severe as the level that it is set to.

use vstd::prelude::*;

verus! {

/// The severity of a diagnostic, and the level of a logger.
#[allow(non_camel_case_types)]
#[derive(Debug, Clone, Copy, PartialEq, Eq, Structural)]
pub enum Logger {
    DEBUG,
    INFO,
    WARN,
    ERROR,
}

/// The level that a logger is set to.
#[derive(Debug, Clone, Copy, PartialEq, Eq, Structural)]
pub struct LogLevel {
    pub logger: Logger,
}

/// The severities in rising order.
pub open spec fn rank(severity: Logger) -> int {
    match severity {
        Logger::DEBUG => 0,
        Logger::INFO => 1,
        Logger::WARN => 2,
        Logger::ERROR => 3,
    }
}

/// A logger set to `level` writes a diagnostic of this severity.
pub open spec fn lets_through(level: LogLevel, severity: Logger) -> bool {
    rank(severity) >= rank(level.logger)
}

/// The diagnostic where the logger writes it, nothing where it does not.
pub open spec fn logged(level: LogLevel, severity: Logger, msg: String) -> Option<String> {
    if lets_through(level, severity) {
        Some(msg)
    } else {
        None
    }
}

impl Logger {
    /// An error is written at every level.
    pub fn error(level: &LogLevel, msg: String) -> (line: Option<String>)
        ensures
            line == logged(*level, Logger::ERROR, msg),
            line == Some(msg),
    {
        Some(msg)
    }

    /// A warning is written unless the level is `ERROR`.
    pub fn warn(level: &LogLevel, msg: String) -> (line: Option<String>)
        ensures
            line == logged(*level, Logger::WARN, msg),
    {
        match level.logger {
            Logger::ERROR => None,
            _ => Some(msg),
        }
    }

    /// A piece of information is written unless the level is `ERROR` or
    /// `WARN`.
    pub fn info(level: &LogLevel, msg: String) -> (line: Option<String>)
        ensures
            line == logged(*level, Logger::INFO, msg),
    {
        match level.logger {
            Logger::ERROR | Logger::WARN => None,
            _ => Some(msg),
        }
    }

    /// A debugging note is written at the level `DEBUG` alone.
    pub fn debug(level: &LogLevel, msg: String) -> (line: Option<String>)
        ensures
            line == logged(*level, Logger::DEBUG, msg),
    {
        match level.logger {
            Logger::DEBUG => Some(msg),
            _ => None,
        }
    }
}

} // verus!
