//! The decisions of the boundary logger: which numeric level selects which
//! severity, whether a record passes the configured level, and the line that
//! is handed to the host's log entrypoint.

use vstd::prelude::*;

verus! {

/// Severity of one log record, most severe first.
#[derive(Clone, Copy, Debug, PartialEq, Eq)]
pub enum LogLevel {
    Error,
    Warn,
    Info,
    Debug,
    Trace,
}

/// The numeric rank of a severity, as it crosses the boundary: 1 for the most
/// severe, 5 for the most verbose.
pub open spec fn level_rank(l: LogLevel) -> int {
    match l {
        LogLevel::Error => 1,
        LogLevel::Warn => 2,
        LogLevel::Info => 3,
        LogLevel::Debug => 4,
        LogLevel::Trace => 5,
    }
}

impl LogLevel {
    /// The numeric rank, for the boundary call.
    pub fn as_int(&self) -> (r: i32)
        ensures
            r as int == level_rank(*self),
    {
        match self {
            LogLevel::Error => 1,
            LogLevel::Warn => 2,
            LogLevel::Info => 3,
            LogLevel::Debug => 4,
            LogLevel::Trace => 5,
        }
    }
}

/// The boundary logger: it forwards each record that passes its configured
/// level to the host, as a numeric level and one message line.
pub struct JavaLog {
    pub level: LogLevel,
}

impl JavaLog {
    /// Whether a record of severity `level` passes the configured level.
    pub fn enabled(&self, level: LogLevel) -> (r: bool)
        ensures
            r == (level_rank(level) <= level_rank(self.level)),
    {
        level.as_int() <= self.level.as_int()
    }

    /// The numeric level and message line to hand the host for one record —
    /// the record's target, a space, and its text — or nothing when the
    /// record does not pass the configured level.
    pub fn log(&self, level: LogLevel, target: &str, message: &str) -> (r: Option<(i32, String)>)
        ensures
            match r {
                Some(line) => {
                    &&& level_rank(level) <= level_rank(self.level)
                    &&& line.0 as int == level_rank(level)
                    &&& line.1@ == target@ + " "@ + message@
                },
                None => level_rank(level) > level_rank(self.level),
            },
    {
        if self.enabled(level) {
            let mut line = <String as vstd::string::StringExecFns>::from_str(target);
            vstd::string::StringExecFns::append(&mut line, " ");
            vstd::string::StringExecFns::append(&mut line, message);
            Some((level.as_int(), line))
        } else {
            None
        }
    }
}

/// Configure the boundary logger from the numeric level the host passes: 1
/// selects errors only, 5 everything; any other number falls back to errors
/// only.
pub fn init_logger(lvl: i32) -> (lg: JavaLog)
    ensures
        level_rank(lg.level) == if 1 <= lvl <= 5 {
            lvl as int
        } else {
            1
        },
{
    let level = match lvl {
        1 => LogLevel::Error,
        2 => LogLevel::Warn,
        3 => LogLevel::Info,
        4 => LogLevel::Debug,
        5 => LogLevel::Trace,
        _ => LogLevel::Error,
    };
    JavaLog { level }
}

} // verus!
