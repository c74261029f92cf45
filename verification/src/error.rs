//! The errors that the queue reports to its callers.

use vstd::prelude::*;

verus! {

/// Why an operation on a task failed.
#[derive(Clone, Copy, Debug, PartialEq, Eq, Structural)]
pub enum Error {
    /// No task with the given identifier is tracked.
    TaskNotFound,
}

impl Error {
    /// The text that describes an error.
    pub open spec fn text(self) -> Seq<char> {
        match self {
            Error::TaskNotFound => "task not found"@,
        }
    }

    /// The error in words.
    pub fn message(&self) -> (text: String)
        ensures
            text@ == self.text(),
    {
        match self {
            Error::TaskNotFound => "task not found".to_owned(),
        }
    }
}

} // verus!
