//! Options for the external parser collaborator. Parsing and printing
//! themselves live outside the verified core, beside the file I/O.
use vstd::prelude::*;

verus! {

/// How a source file is parsed: as TSX, and with decorators.
#[derive(Debug, Clone, Copy, PartialEq, Eq, Structural)]
pub struct ParseOptions {
    pub tsx: bool,
    pub decorators: bool,
}

impl Default for ParseOptions {
    /// TSX with decorators: the dialect the sources of a UI tree use.
    fn default() -> (r: Self)
        ensures
            r.tsx,
            r.decorators,
    {
        ParseOptions { tsx: true, decorators: true }
    }
}

} // verus!
