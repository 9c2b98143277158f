//! Log levels and the logger that writes log records to the serial port.
use vstd::prelude::*;
use vstd::string::StrSliceExecFns;

verus! {

/// Severity of a log record, from the most to the least severe.
#[derive(Clone, Copy, Debug, PartialEq, Eq, Structural)]
pub enum LogLevel {
    Error,
    Warn,
    Info,
    Debug,
    Trace,
}

/// A simple logger writing log records to the serial port (COM1).
pub struct Logger {}

impl Logger {
    /// Create a new logger.
    pub fn new() -> (r: Logger) {
        Logger {}
    }

    /// Whether records of the given level are logged: always.
    pub fn enabled(&self, level: LogLevel) -> (r: bool)
        ensures
            r,
    {
        true
    }
}

/// Whether two strings consist of the same characters.
pub fn str_equals(a: &str, b: &str) -> (r: bool)
    ensures
        r == (a@ == b@),
{
    let n = a.unicode_len();
    if n != b.unicode_len() {
        return false;
    }
    let mut i: usize = 0;
    while i < n
        invariant
            n == a@.len(),
            n == b@.len(),
            i <= n,
            forall|j: int| 0 <= j < i ==> a@[j] == b@[j],
        decreases n - i,
    {
        if a.get_char(i) != b.get_char(i) {
            return false;
        }
        i = i + 1;
    }
    assert(a@ =~= b@);
    true
}

/// The level that a log level abbreviation stands for.
pub open spec fn abbreviation_level(abbr: Seq<char>) -> Option<LogLevel> {
    if abbr == "TRC"@ || abbr == "trc"@ {
        Some(LogLevel::Trace)
    } else if abbr == "DBG"@ || abbr == "dbg"@ {
        Some(LogLevel::Debug)
    } else if abbr == "INF"@ || abbr == "inf"@ {
        Some(LogLevel::Info)
    } else if abbr == "WRN"@ || abbr == "wrn"@ {
        Some(LogLevel::Warn)
    } else if abbr == "ERR"@ || abbr == "err"@ {
        Some(LogLevel::Error)
    } else {
        None
    }
}

/// Convert a log level abbreviation to a `LogLevel`.
/// Supported abbreviations are "TRC", "DBG", "INF", "WRN" and "ERR", in upper
/// or in lower case. Returns `None` for unrecognized abbreviations.
pub fn level_from_abbreviation(abbr: &str) -> (r: Option<LogLevel>)
    ensures
        r == abbreviation_level(abbr@),
{
    if str_equals(abbr, "TRC") || str_equals(abbr, "trc") {
        Some(LogLevel::Trace)
    } else if str_equals(abbr, "DBG") || str_equals(abbr, "dbg") {
        Some(LogLevel::Debug)
    } else if str_equals(abbr, "INF") || str_equals(abbr, "inf") {
        Some(LogLevel::Info)
    } else if str_equals(abbr, "WRN") || str_equals(abbr, "wrn") {
        Some(LogLevel::Warn)
    } else if str_equals(abbr, "ERR") || str_equals(abbr, "err") {
        Some(LogLevel::Error)
    } else {
        None
    }
}

/// The three-letter abbreviation of a log level.
pub open spec fn spec_level_abbreviation(level: LogLevel) -> Seq<char> {
    match level {
        LogLevel::Trace => "TRC"@,
        LogLevel::Debug => "DBG"@,
        LogLevel::Info => "INF"@,
        LogLevel::Warn => "WRN"@,
        LogLevel::Error => "ERR"@,
    }
}

/// Get the three-letter abbreviation for a given log level.
pub fn level_abbreviation(level: LogLevel) -> (r: &'static str)
    ensures
        r@ == spec_level_abbreviation(level),
{
    match level {
        LogLevel::Trace => "TRC",
        LogLevel::Debug => "DBG",
        LogLevel::Info => "INF",
        LogLevel::Warn => "WRN",
        LogLevel::Error => "ERR",
    }
}

/// Reading back the abbreviation of a level gives the level.
pub proof fn lemma_abbreviation_roundtrip(level: LogLevel)
    ensures
        abbreviation_level(spec_level_abbreviation(level)) == Some(level),
{
    reveal_strlit("TRC");
    reveal_strlit("trc");
    reveal_strlit("DBG");
    reveal_strlit("dbg");
    reveal_strlit("INF");
    reveal_strlit("inf");
    reveal_strlit("WRN");
    reveal_strlit("wrn");
    reveal_strlit("ERR");
    reveal_strlit("err");
    assert("TRC"@[0] == 'T');
    assert("trc"@[0] == 't');
    assert("DBG"@[0] == 'D');
    assert("dbg"@[0] == 'd');
    assert("INF"@[0] == 'I');
    assert("inf"@[0] == 'i');
    assert("WRN"@[0] == 'W');
    assert("wrn"@[0] == 'w');
    assert("ERR"@[0] == 'E');
    assert("err"@[0] == 'e');
}

} // verus!
