//! Diagnostics. Lexical and syntax errors are collected in an explicit
//! [`ErrorLog`] that is passed to and returned from scan and parse calls;
//! the `has_error` latch in it is the single source of truth for "did this
//! run contain any error". Callers start each run with a fresh log (or reset
//! it with [`set_error`]); printing the collected lines to the error stream
//! is left to the caller.

use vstd::prelude::*;
use vstd::string::StringExecFns;

use crate::text::{dec_str, decimal_string};

verus! {

/// One recorded diagnostic: `[line <n>] Error<place>: <message>`.
pub open spec fn diag_line(line: nat, place: Seq<char>, message: Seq<char>) -> Seq<char> {
    "[line "@ + dec_str(line) + "] Error"@ + place + ": "@ + message
}

/// The views of a sequence of owned strings.
pub open spec fn msgs_view(msgs: Seq<String>) -> Seq<Seq<char>> {
    msgs.map_values(|s: String| s@)
}

/// The error latch and the diagnostic lines collected during one run.
pub struct ErrorLog {
    pub has_error: bool,
    pub messages: Vec<String>,
}

impl ErrorLog {
    /// A fresh log: latch clear, no messages.
    pub fn new() -> (r: ErrorLog)
        ensures
            !r.has_error,
            r.messages@ == Seq::<String>::empty(),
    {
        ErrorLog { has_error: false, messages: Vec::new() }
    }
}

/// Records a diagnostic with no location detail: `[line <n>] Error: <message>`.
pub fn error(log: &mut ErrorLog, line: usize, message: &str)
    ensures
        final(log).has_error,
        msgs_view(final(log).messages@) == msgs_view(old(log).messages@).push(
            diag_line(line as nat, Seq::<char>::empty(), message@),
        ),
{
    proof {
        reveal_strlit("");
        assert(""@ =~= Seq::<char>::empty());
    }
    report(log, line, "", message);
}

/// Records a diagnostic `[line <n>] Error<place>: <message>` and sets the latch.
pub fn report(log: &mut ErrorLog, line: usize, place: &str, message: &str)
    ensures
        final(log).has_error,
        msgs_view(final(log).messages@) == msgs_view(old(log).messages@).push(
            diag_line(line as nat, place@, message@),
        ),
{
    let mut s = String::from_str("[line ");
    s.append(decimal_string(line).as_str());
    s.append("] Error");
    s.append(place);
    s.append(": ");
    s.append(message);
    proof {
        assert(s@ =~= diag_line(line as nat, place@, message@));
    }
    log.messages.push(s);
    log.has_error = true;
    proof {
        assert(msgs_view(log.messages@) =~= msgs_view(old(log).messages@).push(
            diag_line(line as nat, place@, message@),
        ));
    }
}

/// Sets or clears the error latch, leaving the collected messages alone.
pub fn set_error(log: &mut ErrorLog, value: bool)
    ensures
        final(log).has_error == value,
        final(log).messages == old(log).messages,
{
    log.has_error = value;
}

/// Reads the error latch.
pub fn has_error(log: &ErrorLog) -> (r: bool)
    ensures
        r == log.has_error,
{
    log.has_error
}

} // verus!
