//! Errors the repository can report.

use vstd::prelude::*;

verus! {

/// The one structural failure the repository itself can detect: a
/// persisted snapshot that does not parse into the expected shape.
#[derive(Clone, Copy, PartialEq, Eq, Structural, Debug)]
pub enum RepoError {
    CorruptState,
}

impl RepoError {
    /// A short description of the error.
    pub fn describe(&self) -> (r: String)
        ensures
            r@ == "corrupt persisted state"@,
    {
        String::from_str("corrupt persisted state")
    }
}

} // verus!
