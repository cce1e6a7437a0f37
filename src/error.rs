use vstd::prelude::*;

verus! {

/// Where in the source a diagnostic points.
#[derive(Debug, Clone, Copy, PartialEq, Eq, Structural)]
pub struct CodeLocation {
    pub line: usize,
    pub offset: usize,
}

impl CodeLocation {
    pub fn new(line: usize, offset: usize) -> (r: CodeLocation)
        ensures
            r.line == line,
            r.offset == offset,
    {
        CodeLocation { line, offset }
    }
}

/// The two ways a scan can fail; the first one met aborts the scan.
#[derive(Debug, Clone, Copy, PartialEq, Eq, Structural)]
pub enum LuxtError {
    /// A byte that starts no token.
    InvalidCharacter { location: CodeLocation },
    /// A string literal whose closing quote never comes.
    UnterminatedString { location: CodeLocation },
}

} // verus!
