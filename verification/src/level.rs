//! Severity levels and the threshold filter.

use vstd::prelude::*;

verus! {

/// Severity of a message, from the most verbose to the most severe.
#[derive(Debug, Clone, Copy, PartialEq, Eq, Structural)]
pub enum LogLevel {
    Trace,
    Debug,
    Info,
    Warn,
    Error,
}

impl LogLevel {
    /// Position of the level in the order of severity: `Trace` is 0, `Error` is 4.
    pub open spec fn rank(self) -> nat {
        match self {
            LogLevel::Trace => 0,
            LogLevel::Debug => 1,
            LogLevel::Info => 2,
            LogLevel::Warn => 3,
            LogLevel::Error => 4,
        }
    }

    /// The upper-case name under which the level appears in a line.
    pub open spec fn name(self) -> Seq<char> {
        match self {
            LogLevel::Trace => "TRACE"@,
            LogLevel::Debug => "DEBUG"@,
            LogLevel::Info => "INFO"@,
            LogLevel::Warn => "WARN"@,
            LogLevel::Error => "ERROR"@,
        }
    }

    /// Whether a message of this level is let through by `threshold`: it is,
    /// exactly when the level is at least as severe as the threshold.
    pub open spec fn passes(self, threshold: LogLevel) -> bool {
        self.rank() >= threshold.rank()
    }

    /// The level's upper-case name.
    pub fn as_str(&self) -> (name: &'static str)
        ensures
            name@ == self.name(),
    {
        match self {
            LogLevel::Trace => "TRACE",
            LogLevel::Debug => "DEBUG",
            LogLevel::Info => "INFO",
            LogLevel::Warn => "WARN",
            LogLevel::Error => "ERROR",
        }
    }

    /// The level's position in the order of severity.
    pub fn ordinal(&self) -> (rank: u8)
        ensures
            rank == self.rank(),
    {
        match self {
            LogLevel::Trace => 0,
            LogLevel::Debug => 1,
            LogLevel::Info => 2,
            LogLevel::Warn => 3,
            LogLevel::Error => 4,
        }
    }

    /// Decides whether a message of this level is let through by `threshold`.
    pub fn is_enabled(&self, threshold: LogLevel) -> (enabled: bool)
        ensures
            enabled == self.passes(threshold),
    {
        self.ordinal() >= threshold.ordinal()
    }
}

/// A threshold that is no more severe lets through every level that a more
/// severe one lets through: lowering the threshold never silences a level.
pub proof fn lemma_lower_threshold_passes_more(lower: LogLevel, higher: LogLevel)
    requires
        lower.rank() <= higher.rank(),
    ensures
        forall|level: LogLevel| #[trigger] level.passes(higher) ==> level.passes(lower),
{
}

/// The levels are ordered as they are declared, and no two share a rank.
pub proof fn lemma_rank_orders_levels(a: LogLevel, b: LogLevel)
    ensures
        a.rank() <= 4,
        a.rank() == b.rank() ==> a == b,
        LogLevel::Trace.rank() < LogLevel::Debug.rank() < LogLevel::Info.rank()
            < LogLevel::Warn.rank() < LogLevel::Error.rank(),
{
}

} // verus!
