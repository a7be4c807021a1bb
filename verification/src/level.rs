//! Event severity levels.

use vstd::prelude::*;

verus! {

/// Severity of an event, from most to least verbose.
#[derive(Debug, Clone, Copy, PartialEq, Eq, Structural)]
pub enum Level {
    Trace,
    Debug,
    Info,
    Warn,
    Error,
}

/// Upper-case name of a level (`TRACE`, `DEBUG`, `INFO`, `WARN`, `ERROR`).
pub open spec fn level_name(l: Level) -> Seq<char> {
    match l {
        Level::Trace => seq!['T', 'R', 'A', 'C', 'E'],
        Level::Debug => seq!['D', 'E', 'B', 'U', 'G'],
        Level::Info => seq!['I', 'N', 'F', 'O'],
        Level::Warn => seq!['W', 'A', 'R', 'N'],
        Level::Error => seq!['E', 'R', 'R', 'O', 'R'],
    }
}

impl Level {
    /// The level's upper-case name.
    pub fn as_str(&self) -> (r: &'static str)
        ensures
            r@ == level_name(*self),
    {
        match self {
            Level::Trace => {
                let r = "TRACE";
                proof { reveal_strlit("TRACE"); assert(r@ =~= level_name(*self)); }
                r
            },
            Level::Debug => {
                let r = "DEBUG";
                proof { reveal_strlit("DEBUG"); assert(r@ =~= level_name(*self)); }
                r
            },
            Level::Info => {
                let r = "INFO";
                proof { reveal_strlit("INFO"); assert(r@ =~= level_name(*self)); }
                r
            },
            Level::Warn => {
                let r = "WARN";
                proof { reveal_strlit("WARN"); assert(r@ =~= level_name(*self)); }
                r
            },
            Level::Error => {
                let r = "ERROR";
                proof { reveal_strlit("ERROR"); assert(r@ =~= level_name(*self)); }
                r
            },
        }
    }
}

} // verus!
