//! The failure of an operation that ran out of time.
use vstd::prelude::*;

verus! {

/// An operation did not finish within its budget.
#[derive(Debug, Clone, Copy, PartialEq, Eq, Structural)]
pub struct Elapsed;

impl Elapsed {
    /// The sentence the failure displays as.
    pub fn message(&self) -> (m: String)
        ensures
            m@ == "the operation timed out"@,
    {
        String::from_str("the operation timed out")
    }
}

} // verus!
