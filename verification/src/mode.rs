//! What an invocation is asked to do.

use vstd::prelude::*;
use crate::text::str_equals;

verus! {

/// The two things an invocation can do; it does exactly one.
#[derive(Clone, Copy, Debug, PartialEq, Eq, Structural)]
pub enum Mode {
    /// Read paths and ingest the files.
    Index,
    /// Read a query and answer it.
    Query,
}

/// Why the arguments select no mode.
#[derive(Clone, Copy, Debug, PartialEq, Eq, Structural)]
pub enum UsageError {
    /// No selector follows the program's name.
    MissingMode,
    /// The selector is none of the known ones.
    UnknownMode,
}

/// The mode that a selector names.
pub open spec fn mode_of_selector(selector: Seq<char>) -> Option<Mode> {
    if selector == "-i"@ || selector == "--index"@ {
        Some(Mode::Index)
    } else if selector == "-q"@ || selector == "--query"@ {
        Some(Mode::Query)
    } else {
        None
    }
}

/// The mode that the arguments select. The first argument is the program's
/// name and the second the selector; what follows is not looked at.
pub open spec fn mode_of_arguments(args: Seq<String>) -> Result<Mode, UsageError> {
    if args.len() < 2 {
        Err(UsageError::MissingMode)
    } else {
        match mode_of_selector(args[1]@) {
            Some(mode) => Ok(mode),
            None => Err(UsageError::UnknownMode),
        }
    }
}

/// Reads the mode from the arguments of the invocation.
pub fn select_mode(args: &Vec<String>) -> (mode: Result<Mode, UsageError>)
    ensures
        mode == mode_of_arguments(args@),
{
    if args.len() < 2 {
        return Err(UsageError::MissingMode);
    }
    let selector = args[1].as_str();
    if str_equals(selector, "-i") || str_equals(selector, "--index") {
        Ok(Mode::Index)
    } else if str_equals(selector, "-q") || str_equals(selector, "--query") {
        Ok(Mode::Query)
    } else {
        Err(UsageError::UnknownMode)
    }
}

} // verus!
