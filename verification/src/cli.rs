//! The command line: the input file, an optional output file and an
//! optional format name.

use vstd::prelude::*;

verus! {

/// The arguments of a session.
#[derive(Debug)]
pub struct Cli {
    /// The input file (a template such as `.env.example`, or an active file).
    pub input: String,
    /// Where to save; found from the input's name when not given.
    pub output: Option<String>,
    /// A format name that overrides detection by extension.
    pub format: Option<String>,
}

} // verus!
