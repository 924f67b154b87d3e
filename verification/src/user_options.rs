//! Configuration handed in by the embedding application.

use vstd::prelude::*;

verus! {

/// The options the command line sets; `debug` asks the front end for
/// verbose structural tracing and has no effect on program semantics.
pub struct Options {
    pub debug: bool,
}

impl Default for Options {
    /// Debugging starts switched off.
    fn default() -> (r: Options)
        ensures
            !r.debug,
    {
        Options { debug: false }
    }
}

} // verus!
