use vstd::prelude::*;

pub mod expand;
pub mod pattern;
pub mod pipeline;
pub mod render;
pub mod segment;
pub mod style;

verus! {

/// Options for one run of the tool: the pattern to search for, the
/// replacement template, the input files, and whether to emit a diff.
pub struct Opt {
    pub find: String,
    pub replace_with: String,
    pub files: Vec<String>,
    pub diff: bool,
}

/// What can go wrong inside the library: the supplied pattern does not
/// compile. Failures of the surrounding input and output are reported by
/// the callers that perform them.
pub enum RepatError {
    InvalidPattern(String),
}

impl RepatError {
    /// The message to report for this error.
    pub fn message(self) -> (m: String)
        ensures
            self == RepatError::InvalidPattern(m),
    {
        match self {
            RepatError::InvalidPattern(m) => m,
        }
    }
}

} // verus!
