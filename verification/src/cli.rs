//! Errors and argument helpers shared by the subcommands.
use vstd::prelude::*;

use crate::text::same_text;

verus! {

/// A command failed; `message` is what the user is shown after `error: `.
#[derive(Debug)]
pub struct CliError {
    pub message: String,
}

impl CliError {
    /// The message, as displayed.
    pub fn to_string(&self) -> (r: String)
        ensures
            r@ == self.message@,
    {
        self.message.clone()
    }
}

/// An error carrying `text`.
pub fn fail(text: String) -> (r: CliError)
    ensures
        r.message@ == text@,
{
    CliError { message: text }
}

/// An error carrying the literal `text`.
pub fn fail_with(text: &str) -> (r: CliError)
    ensures
        r.message@ == text@,
{
    CliError { message: String::from_str(text) }
}

/// The characters of each argument.
pub open spec fn texts(args: Seq<String>) -> Seq<Seq<char>> {
    args.map_values(|s: String| s@)
}

/// The characters of an optional text.
pub open spec fn opt_text(o: Option<String>) -> Option<Seq<char>> {
    match o {
        Some(s) => Some(s@),
        None => None,
    }
}

/// A result with its value and its error seen as plain values.
pub open spec fn outcome<T: View>(r: Result<T, CliError>) -> Result<T::V, Seq<char>> {
    match r {
        Ok(v) => Ok(v@),
        Err(e) => Err(e.message@),
    }
}

/// Whether argument `i` is the literal `lit`.
pub fn arg_is(args: &[String], i: usize, lit: &str) -> (r: bool)
    requires
        i < args@.len(),
    ensures
        r == (texts(args@)[i as int] == lit@),
{
    same_text(args[i].as_str(), lit)
}

/// `args.iter().any(|a| a == "--help" || a == "-h")`.
pub open spec fn asks_for_help(args: Seq<Seq<char>>) -> bool {
    exists|i: int| 0 <= i < args.len() && (args[i] == "--help"@ || args[i] == "-h"@)
}

/// Whether any argument asks for help.
pub fn wants_help(args: &[String]) -> (r: bool)
    ensures
        r == asks_for_help(texts(args@)),
{
    let mut i: usize = 0;
    while i < args.len()
        invariant
            i <= args@.len(),
            forall|k: int|
                0 <= k < i ==> !(texts(args@)[k] == "--help"@ || texts(args@)[k] == "-h"@),
        decreases args.len() - i,
    {
        if arg_is(args, i, "--help") || arg_is(args, i, "-h") {
            return true;
        }
        i = i + 1;
    }
    false
}

} // verus!
