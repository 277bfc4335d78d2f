//! Log messages and where they go.

use vstd::prelude::*;

use crate::fs::names_no_file;
use crate::text::{copy_str, push_text, string_of};

verus! {

/// How grave a message is.
#[derive(Debug, Clone, Copy, PartialEq, Eq, Structural)]
pub enum LogLevel {
    Verbose,
    Debug,
    Info,
    Warn,
    Error,
    Fatal,
}

/// The priority of a level in the Android log.
pub open spec fn level_priority(level: LogLevel) -> i32 {
    match level {
        LogLevel::Verbose => 2,
        LogLevel::Debug => 3,
        LogLevel::Info => 4,
        LogLevel::Warn => 5,
        LogLevel::Error => 6,
        LogLevel::Fatal => 7,
    }
}

/// The name of a level.
pub open spec fn level_name(level: LogLevel) -> Seq<char> {
    match level {
        LogLevel::Verbose => "VERBOSE"@,
        LogLevel::Debug => "DEBUG"@,
        LogLevel::Info => "INFO"@,
        LogLevel::Warn => "WARN"@,
        LogLevel::Error => "ERROR"@,
        LogLevel::Fatal => "FATAL"@,
    }
}

impl LogLevel {
    /// The priority in the Android log.
    pub fn priority(self) -> (r: i32)
        ensures
            r == level_priority(self),
    {
        match self {
            LogLevel::Verbose => 2,
            LogLevel::Debug => 3,
            LogLevel::Info => 4,
            LogLevel::Warn => 5,
            LogLevel::Error => 6,
            LogLevel::Fatal => 7,
        }
    }

    /// The name.
    pub fn name(self) -> (r: &'static str)
        ensures
            r@ == level_name(self),
    {
        match self {
            LogLevel::Verbose => "VERBOSE",
            LogLevel::Debug => "DEBUG",
            LogLevel::Info => "INFO",
            LogLevel::Warn => "WARN",
            LogLevel::Error => "ERROR",
            LogLevel::Fatal => "FATAL",
        }
    }
}

/// Where messages go.
#[derive(Debug, Clone, Copy, PartialEq, Eq, Structural)]
pub enum LogBackend {
    /// The Android log.
    Android,
    /// Standard error.
    Stderr,
    /// Nowhere.
    Null,
}

/// A message, ready for its backend.
#[derive(Debug)]
pub enum LogRecord {
    /// For the Android log.
    Android { priority: i32, tag: String, text: String },
    /// A line for standard error.
    Stderr(String),
    /// Nothing to write.
    Nothing,
}

/// A line for standard error: `[<level>][<tag>] <message>`.
pub open spec fn log_line(level: LogLevel, tag: Seq<char>, msg: Seq<char>) -> Seq<char> {
    "["@ + level_name(level) + "]["@ + tag + "] "@ + msg + "\n"@
}

/// A text, or what stands for it where a NUL would cut it off.
pub open spec fn or_instead(s: Seq<char>, instead: Seq<char>) -> Seq<char> {
    if s.contains('\0') {
        instead
    } else {
        s
    }
}

/// Whether a record is the message for the backend.
pub open spec fn is_record(
    r: LogRecord,
    backend: LogBackend,
    level: LogLevel,
    tag: Seq<char>,
    msg: Seq<char>,
) -> bool {
    match backend {
        LogBackend::Android => r matches LogRecord::Android { priority, tag: t, text: x }
            && priority == level_priority(level) && t@ == or_instead(tag, "CoreShift"@) && x@
            == or_instead(msg, "<invalid utf8>"@),
        LogBackend::Stderr => r matches LogRecord::Stderr(line) && line@ == log_line(
            level,
            tag,
            msg,
        ),
        LogBackend::Null => r is Nothing,
    }
}

/// Writes messages to one backend.
#[derive(Debug, Clone, Copy, PartialEq, Eq, Structural)]
pub struct Logger {
    pub backend: LogBackend,
}

fn text_or(s: &str, instead: &str) -> (r: String)
    ensures
        r@ == or_instead(s@, instead@),
{
    if names_no_file(s) {
        copy_str(instead)
    } else {
        copy_str(s)
    }
}

impl Logger {
    /// A logger for the backend.
    pub fn new(backend: LogBackend) -> (r: Self)
        ensures
            r.backend == backend,
    {
        Self { backend }
    }

    /// The logger of a platform: for the Android log on Android, for standard
    /// error elsewhere.
    pub fn platform(android: bool) -> (r: Self)
        ensures
            r.backend == (if android {
                LogBackend::Android
            } else {
                LogBackend::Stderr
            }),
    {
        if android {
            Self::new(LogBackend::Android)
        } else {
            Self::new(LogBackend::Stderr)
        }
    }

    /// Make a message ready for the backend.
    pub fn log(&self, level: LogLevel, tag: &str, msg: &str) -> (r: LogRecord)
        ensures
            is_record(r, self.backend, level, tag@, msg@),
    {
        match self.backend {
            LogBackend::Android => LogRecord::Android {
                priority: level.priority(),
                tag: text_or(tag, "CoreShift"),
                text: text_or(msg, "<invalid utf8>"),
            },
            LogBackend::Stderr => {
                let mut line: Vec<char> = Vec::new();
                push_text(&mut line, "[");
                push_text(&mut line, level.name());
                push_text(&mut line, "][");
                push_text(&mut line, tag);
                push_text(&mut line, "] ");
                push_text(&mut line, msg);
                push_text(&mut line, "\n");
                assert(line@ =~= log_line(level, tag@, msg@));
                LogRecord::Stderr(string_of(line.as_slice()))
            },
            LogBackend::Null => LogRecord::Nothing,
        }
    }
}

/// Make a message ready for the backend of the platform.
pub fn log(android: bool, level: LogLevel, tag: &str, msg: &str) -> (r: LogRecord)
    ensures
        is_record(
            r,
            if android {
                LogBackend::Android
            } else {
                LogBackend::Stderr
            },
            level,
            tag@,
            msg@,
        ),
{
    Logger::platform(android).log(level, tag, msg)
}

/// The same as `log`.
pub fn log_write(android: bool, level: LogLevel, tag: &str, msg: &str) -> (r: LogRecord)
    ensures
        is_record(
            r,
            if android {
                LogBackend::Android
            } else {
                LogBackend::Stderr
            },
            level,
            tag@,
            msg@,
        ),
{
    log(android, level, tag, msg)
}

// ---------------------------------------------------------------------------
// Laws
// ---------------------------------------------------------------------------

/// The levels rise from verbose to fatal as the Android log counts them, and have
/// names of their own.
pub proof fn law_levels()
    ensures
        level_priority(LogLevel::Verbose) == 2,
        level_priority(LogLevel::Debug) == 3,
        level_priority(LogLevel::Info) == 4,
        level_priority(LogLevel::Warn) == 5,
        level_priority(LogLevel::Error) == 6,
        level_priority(LogLevel::Fatal) == 7,
        level_name(LogLevel::Verbose) == "VERBOSE"@,
        level_name(LogLevel::Debug) == "DEBUG"@,
        level_name(LogLevel::Info) == "INFO"@,
        level_name(LogLevel::Warn) == "WARN"@,
        level_name(LogLevel::Error) == "ERROR"@,
        level_name(LogLevel::Fatal) == "FATAL"@,
{
}

/// A record holds the tag and the message as they are, but for a NUL that the
/// Android log cannot take; nothing is written where there is no log.
pub proof fn law_records(r: LogRecord, level: LogLevel, tag: Seq<char>, msg: Seq<char>)
    ensures
        is_record(r, LogBackend::Null, level, tag, msg) <==> r is Nothing,
        is_record(r, LogBackend::Stderr, level, tag, msg) <==> (r matches LogRecord::Stderr(line)
            && line@ == "["@ + level_name(level) + "]["@ + tag + "] "@ + msg + "\n"@),
        is_record(r, LogBackend::Android, level, tag, msg) <==> (r matches LogRecord::Android {
            priority,
            tag: t,
            text: x,
        } && priority == level_priority(level) && t@ == (if tag.contains('\0') {
            "CoreShift"@
        } else {
            tag
        }) && x@ == (if msg.contains('\0') {
            "<invalid utf8>"@
        } else {
            msg
        })),
{
}

} // verus!
