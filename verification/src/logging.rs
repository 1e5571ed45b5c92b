//! Which log records the client prints.

use vstd::prelude::*;

verus! {

/// The level of a log record, from the most to the least severe.
#[derive(Debug, Clone, Copy, PartialEq, Eq)]
pub enum LogLevel {
    Error,
    Warn,
    Info,
    Debug,
    Trace,
}

/// The rank of a level: one for the most severe, five for the least.
pub open spec fn rank(level: LogLevel) -> int {
    match level {
        LogLevel::Error => 1,
        LogLevel::Warn => 2,
        LogLevel::Info => 3,
        LogLevel::Debug => 4,
        LogLevel::Trace => 5,
    }
}

/// Whether a record of this level is printed: every level up to `Debug`.
pub fn level_enabled(level: LogLevel) -> (r: bool)
    ensures
        r == (rank(level) <= rank(LogLevel::Debug)),
{
    match level {
        LogLevel::Trace => false,
        _ => true,
    }
}

} // verus!
