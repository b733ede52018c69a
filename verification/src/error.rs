//! The failures that the dictionary reports.

use vstd::prelude::*;
use vstd::string::*;

verus! {

/// Why a dictionary operation failed.
#[derive(Debug, Clone, PartialEq, Eq)]
pub enum AtomError {
    /// No entry has the identifier that an update named.
    NotFound,
    /// The store has no identifier left for a new entry.
    StoreFull,
    /// The matcher could not be built from the pattern set; the text says
    /// why.
    AutomatonBuild(String),
}

impl AtomError {
    /// A description of the failure for display.
    pub fn message(&self) -> (r: String)
        ensures
            self is NotFound ==> r@ == "atom not found"@,
            self is StoreFull ==> r@ == "atom store is full"@,
            self matches AtomError::AutomatonBuild(text) ==> r@ == "failed to build the matcher: "@
                + text@,
    {
        match self {
            AtomError::NotFound => String::from_str("atom not found"),
            AtomError::StoreFull => String::from_str("atom store is full"),
            AtomError::AutomatonBuild(text) => {
                let mut out = String::from_str("failed to build the matcher: ");
                out.append(text.as_str());
                out
            },
        }
    }
}

} // verus!
