//! Severity levels and their textual names.

use vstd::prelude::*;
use vstd::string::StringExecFns;

verus! {

/// Severity of a log entry.
#[derive(Clone, Copy, Debug, PartialEq, Eq, Hash, Structural)]
pub enum LogLevel {
    Info,
    Warning,
    Error,
    Debug,
}

/// The upper-case form of a text, as `str::to_uppercase` of the standard
/// library computes it (full Unicode case mapping).
pub uninterp spec fn uppercase_of(text: Seq<char>) -> Seq<char>;

/// Calls `str::to_uppercase`. Trusted: the result is the upper-case form of
/// the argument, a function of the argument alone.
#[verifier::external_body]
fn to_upper(text: &str) -> (upper: String)
    ensures
        upper@ == uppercase_of(text@),
{
    text.to_uppercase()
}

/// The level that an upper-case token names; `WARN` is an alias of `WARNING`.
pub open spec fn level_of_name(token: Seq<char>) -> Option<LogLevel> {
    if token == "INFO"@ {
        Some(LogLevel::Info)
    } else if token == "WARN"@ || token == "WARNING"@ {
        Some(LogLevel::Warning)
    } else if token == "ERROR"@ {
        Some(LogLevel::Error)
    } else if token == "DEBUG"@ {
        Some(LogLevel::Debug)
    } else {
        None
    }
}

impl LogLevel {
    /// The canonical upper-case name of the level.
    pub open spec fn name(self) -> Seq<char> {
        match self {
            LogLevel::Info => "INFO"@,
            LogLevel::Warning => "WARNING"@,
            LogLevel::Error => "ERROR"@,
            LogLevel::Debug => "DEBUG"@,
        }
    }

    /// Looks an already upper-cased token up in the table of level names.
    pub fn from_upper(token: &String) -> (level: Option<LogLevel>)
        ensures
            level == level_of_name(token@),
    {
        if *token == String::from_str("INFO") {
            Some(LogLevel::Info)
        } else if *token == String::from_str("WARN") || *token == String::from_str("WARNING") {
            Some(LogLevel::Warning)
        } else if *token == String::from_str("ERROR") {
            Some(LogLevel::Error)
        } else if *token == String::from_str("DEBUG") {
            Some(LogLevel::Debug)
        } else {
            None
        }
    }

    /// Reads a level name without regard to case.
    pub fn from_str(token: &str) -> (level: Option<LogLevel>)
        ensures
            level == level_of_name(uppercase_of(token@)),
    {
        let upper = to_upper(token);
        LogLevel::from_upper(&upper)
    }

    /// The canonical upper-case name of the level.
    pub fn as_str(&self) -> (name: &'static str)
        ensures
            name@ == self.name(),
    {
        match self {
            LogLevel::Info => "INFO",
            LogLevel::Warning => "WARNING",
            LogLevel::Error => "ERROR",
            LogLevel::Debug => "DEBUG",
        }
    }
}

/// Every canonical level name is found again in the table of names, and
/// names the level it came from.
pub proof fn lemma_name_is_known(level: LogLevel)
    ensures
        level_of_name(level.name()) == Some(level),
{
    reveal_strlit("INFO");
    reveal_strlit("WARN");
    reveal_strlit("WARNING");
    reveal_strlit("ERROR");
    reveal_strlit("DEBUG");
    assert("INFO"@.len() == 4);
    assert("WARN"@.len() == 4);
    assert("WARNING"@.len() == 7);
    assert("ERROR"@.len() == 5);
    assert("DEBUG"@.len() == 5);
    assert("INFO"@[0] == 'I');
    assert("WARN"@[0] == 'W');
    assert("ERROR"@[0] == 'E');
    assert("DEBUG"@[0] == 'D');
    assert("WARNING"@[0] == 'W');
}

} // verus!
