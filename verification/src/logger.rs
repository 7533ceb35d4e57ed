//! How much a node logs.

use crate::text::{chars_of, same_text};
use vstd::prelude::*;

verus! {

/// How much is logged, from the most to the least.
#[derive(Debug, PartialEq, Eq, Structural, Clone, Copy)]
pub enum LogLevel {
    Trace,
    Debug,
    Info,
    Warn,
    Error,
}

/// The level that a word of the configuration stands for. A word that names
/// no level stands for `Info`.
pub open spec fn level_of(word: Seq<char>) -> LogLevel {
    if word == "debug"@ {
        LogLevel::Debug
    } else if word == "trace"@ {
        LogLevel::Trace
    } else if word == "error"@ {
        LogLevel::Error
    } else if word == "warn"@ {
        LogLevel::Warn
    } else {
        LogLevel::Info
    }
}

/// The level that `log_level` asks for.
pub fn level(log_level: &str) -> (l: LogLevel)
    ensures
        l == level_of(log_level@),
{
    let word = chars_of(log_level);
    if same_text(&word, &chars_of("debug")) {
        LogLevel::Debug
    } else if same_text(&word, &chars_of("trace")) {
        LogLevel::Trace
    } else if same_text(&word, &chars_of("error")) {
        LogLevel::Error
    } else if same_text(&word, &chars_of("warn")) {
        LogLevel::Warn
    } else {
        LogLevel::Info
    }
}

} // verus!
