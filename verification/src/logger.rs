//! The logger: a threshold, the sinks that are switched on, and the rule that
//! says what each sink receives for a message.
//!
//! The logger writes nothing itself. For a message and a reading of the clock
//! it hands back a [`Delivery`]: the text for standard output and the text for
//! the file, each present exactly when that sink is switched on and the
//! message passes the threshold.

use crate::civil::{civil_from_unix, civil_time_at};
use crate::level::LogLevel;
use crate::render::{format_line, format_timestamp, line_text, timestamp_text};
use vstd::prelude::*;

verus! {

/// A reading of the wall clock, with the local offset to apply to it.
#[derive(Debug, Clone, Copy, PartialEq, Eq, Structural)]
pub struct ClockReading {
    /// Whole seconds since 1 January 1970, 00:00:00 UTC.
    pub unix_seconds: u64,
    /// Milliseconds into the running second.
    pub subsec_millis: u32,
    /// The local offset from UTC, in seconds.
    pub offset_seconds: i32,
}

/// What each sink receives for one message: nothing, or one whole line with
/// the newline that ends it.
#[derive(Debug)]
pub struct Delivery {
    /// The text for standard output.
    pub stdout: Option<String>,
    /// The text to append to the file.
    pub file: Option<String>,
}

/// The text that a sink receives for a message that passes: the line for the
/// local civil time of the reading, and a newline.
pub open spec fn entry_text(now: ClockReading, level: LogLevel, message: Seq<char>) -> Seq<char> {
    line_text(
        timestamp_text(
            civil_time_at(now.unix_seconds + now.offset_seconds),
            now.subsec_millis as nat,
        ),
        level,
        message,
    ).push('\n')
}

/// A threshold and the sinks that are switched on. Nothing changes them once
/// the logger is made.
#[derive(Debug)]
pub struct Logger {
    level: LogLevel,
    log_file: Option<String>,
    to_stdout: bool,
}

impl Logger {
    /// The least severe level that is let through.
    pub closed spec fn threshold(&self) -> LogLevel {
        self.level
    }

    /// The path of the file sink, if there is one.
    pub closed spec fn file_path(&self) -> Option<Seq<char>> {
        match self.log_file {
            Some(path) => Some(path@),
            None => None,
        }
    }

    /// Whether standard output is a sink.
    pub closed spec fn echoes_stdout(&self) -> bool {
        self.to_stdout
    }

    /// Whether `sent` is what the sinks are owed for a message: each sink
    /// that is switched on receives the entry if the level passes the
    /// threshold, and no sink receives anything otherwise.
    pub open spec fn owes(
        &self,
        level: LogLevel,
        message: Seq<char>,
        now: ClockReading,
        sent: Delivery,
    ) -> bool {
        &&& sent.stdout is Some <==> level.passes(self.threshold()) && self.echoes_stdout()
        &&& sent.file is Some <==> level.passes(self.threshold()) && self.file_path() is Some
        &&& sent.stdout matches Some(text) ==> text@ == entry_text(now, level, message)
        &&& sent.file matches Some(text) ==> text@ == entry_text(now, level, message)
    }

    /// Makes a logger with the threshold `level`, a file sink at `log_file`
    /// if a path is given, and standard output as a sink if `to_stdout`.
    pub fn new(level: LogLevel, log_file: Option<&str>, to_stdout: bool) -> (logger: Logger)
        ensures
            logger.threshold() == level,
            logger.file_path() == match log_file {
                Some(path) => Some(path@),
                None => None,
            },
            logger.echoes_stdout() == to_stdout,
    {
        let log_file = match log_file {
            Some(path) => Some(path.to_owned()),
            None => None,
        };
        Logger { level, log_file, to_stdout }
    }

    /// Decides whether a message of `level` passes the threshold. A caller
    /// that reads the clock only for messages that pass asks this first.
    pub fn enabled(&self, level: LogLevel) -> (passes: bool)
        ensures
            passes == level.passes(self.threshold()),
    {
        level.is_enabled(self.level)
    }

    /// Says what each sink receives for `message` at `level`, read at `now`.
    pub fn log(&self, level: LogLevel, message: &str, now: ClockReading) -> (sent: Delivery)
        ensures
            self.owes(level, message@, now, sent),
    {
        if !level.is_enabled(self.level) {
            return Delivery { stdout: None, file: None };
        }
        let local = civil_from_unix(now.unix_seconds, now.offset_seconds);
        let timestamp = format_timestamp(&local, now.subsec_millis);
        let mut entry = format_line(timestamp.as_str(), level, message);
        proof {
            reveal_strlit("\n");
        }
        entry.append("\n");
        assert(entry@ =~= entry_text(now, level, message@));
        let file = if self.log_file.is_some() {
            Some(entry.clone())
        } else {
            None
        };
        let stdout = if self.to_stdout {
            Some(entry)
        } else {
            None
        };
        Delivery { stdout, file }
    }

    /// Logs `msg` at the level `Info`.
    pub fn info(&self, msg: &str, now: ClockReading) -> (sent: Delivery)
        ensures
            self.owes(LogLevel::Info, msg@, now, sent),
    {
        self.log(LogLevel::Info, msg, now)
    }

    /// Logs `msg` at the level `Warn`.
    pub fn warn(&self, msg: &str, now: ClockReading) -> (sent: Delivery)
        ensures
            self.owes(LogLevel::Warn, msg@, now, sent),
    {
        self.log(LogLevel::Warn, msg, now)
    }

    /// Logs `msg` at the level `Error`.
    pub fn error(&self, msg: &str, now: ClockReading) -> (sent: Delivery)
        ensures
            self.owes(LogLevel::Error, msg@, now, sent),
    {
        self.log(LogLevel::Error, msg, now)
    }

    /// Logs `msg` at the level `Debug`.
    pub fn debug(&self, msg: &str, now: ClockReading) -> (sent: Delivery)
        ensures
            self.owes(LogLevel::Debug, msg@, now, sent),
    {
        self.log(LogLevel::Debug, msg, now)
    }

    /// Logs `msg` at the level `Trace`.
    pub fn trace(&self, msg: &str, now: ClockReading) -> (sent: Delivery)
        ensures
            self.owes(LogLevel::Trace, msg@, now, sent),
    {
        self.log(LogLevel::Trace, msg, now)
    }

    /// The threshold.
    pub fn level(&self) -> (level: LogLevel)
        ensures
            level == self.threshold(),
    {
        self.level
    }

    /// The path of the file sink, if there is one.
    pub fn log_file(&self) -> (path: Option<&str>)
        ensures
            self.file_path() == match path {
                Some(text) => Some(text@),
                None => None,
            },
    {
        match &self.log_file {
            Some(path) => Some(path.as_str()),
            None => None,
        }
    }

    /// Whether standard output is a sink.
    pub fn to_stdout(&self) -> (echoes: bool)
        ensures
            echoes == self.echoes_stdout(),
    {
        self.to_stdout
    }
}

} // verus!
