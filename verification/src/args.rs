//! The command line: what to do, as the program's arguments say.

use vstd::prelude::*;

verus! {

/// The program's arguments.
#[derive(Debug, Clone)]
pub struct Args {
    pub subcommands: Option<Subcommands>,
}

/// What the program is asked to do.
#[derive(Debug, Clone)]
pub enum Subcommands {
    /// Start an interactive session, with or without the greeting.
    Interactive { show_hello: bool },
    /// Run program files and write the result to `out`, or to standard
    /// output when `stdout` is set.
    Run { files: Vec<String>, out: String, stdout: bool, only_show_reductions: bool },
}

} // verus!
