//! The lines of the application's log file.  Taking the time and writing
//! the file is the caller's part.

use vstd::prelude::*;
use vstd::string::*;

verus! {

/// Size in bytes beyond which the log file is emptied before it is used
/// again.
pub const MAX_LOG_SIZE: u64 = 1000000;

/// How much a log line matters.
#[allow(non_camel_case_types)]
#[derive(Clone, Copy, Debug, PartialEq, Eq, Structural)]
pub enum LogLevel {
    NORMAL,
    ERROR,
    WARN,
    INFO,
    SUCCESS,
    DEBUG,
}

/// The name that a level is logged under.
pub open spec fn level_name_of(level: LogLevel) -> Seq<char> {
    match level {
        LogLevel::NORMAL => "NORMAL"@,
        LogLevel::ERROR => "ERROR"@,
        LogLevel::WARN => "WARN"@,
        LogLevel::INFO => "INFO"@,
        LogLevel::SUCCESS => "SUCCESS"@,
        LogLevel::DEBUG => "DEBUG"@,
    }
}

/// Executable form of [`level_name_of`].
pub fn level_name(level: LogLevel) -> (r: &'static str)
    ensures
        r@ == level_name_of(level),
{
    match level {
        LogLevel::NORMAL => "NORMAL",
        LogLevel::ERROR => "ERROR",
        LogLevel::WARN => "WARN",
        LogLevel::INFO => "INFO",
        LogLevel::SUCCESS => "SUCCESS",
        LogLevel::DEBUG => "DEBUG",
    }
}

/// Whether a log file of `size` bytes is emptied before logging goes on.
pub fn needs_purge(size: u64) -> (r: bool)
    ensures
        r == (size > MAX_LOG_SIZE),
{
    size > MAX_LOG_SIZE
}

/// A log line: `[time] [LEVEL] message`, or `[time] [prefix/LEVEL] message`
/// where a prefix names the part of the program that speaks.
pub open spec fn log_line_of(
    timestamp: Seq<char>,
    prefix: Option<Seq<char>>,
    level: LogLevel,
    msg: Seq<char>,
) -> Seq<char> {
    "["@ + timestamp + "] ["@ + match prefix {
        Some(p) => p + "/"@,
        None => Seq::empty(),
    } + level_name_of(level) + "] "@ + msg
}

/// Builds a log line; see [`log_line_of`].
pub fn log_line(timestamp: &str, prefix: Option<&str>, level: LogLevel, msg: &str) -> (r: String)
    ensures
        r@ == log_line_of(
            timestamp@,
            match prefix {
                Some(p) => Some(p@),
                None => None,
            },
            level,
            msg@,
        ),
{
    let mut line = String::from_str("[");
    line.append(timestamp);
    line.append("] [");
    let ghost head = line@;
    match prefix {
        Some(p) => {
            line.append(p);
            line.append("/");
            assert(line@ =~= head + (p@ + "/"@));
        },
        None => {
            assert(line@ =~= head + Seq::<char>::empty());
        },
    }
    line.append(level_name(level));
    line.append("] ");
    line.append(msg);
    line
}

} // verus!
