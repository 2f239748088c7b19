//! Program-related structures.

use vstd::prelude::*;

verus! {

/// The program's execution options.
#[derive(Clone, PartialEq, Eq, Debug)]
pub struct Options {
    /// Whether the program should be verbose. Defaults to `true`.
    pub be_verbose: bool,
}

impl Default for Options {
    /// Creates an `Options` structure with default values.
    fn default() -> (options: Options)
        ensures
            options.be_verbose,
    {
        Options { be_verbose: true }
    }
}

} // verus!
