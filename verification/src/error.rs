//! An error that is told in words.
use vstd::prelude::*;

verus! {

/// An error that holds its description and nothing else.
#[derive(Debug)]
pub struct GenericError {
    pub description: String,
}

impl GenericError {
    /// The error with this description.
    pub fn new(description: String) -> (e: GenericError)
        ensures
            e.description == description,
    {
        GenericError { description }
    }
}

} // verus!
