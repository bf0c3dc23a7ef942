//! Explains a line of code from the evidence that Git has recorded for it.
use vstd::prelude::*;

pub mod analysis;
pub mod command;
pub mod evidence;
pub mod git;
pub mod model;
pub mod output;
pub mod paths;
pub mod remote;
pub mod text;

verus! {

/// A failure, with the message that is shown to the user.
#[derive(Debug, Clone)]
pub struct AppError(pub String);

impl AppError {
    /// The message of this error.
    pub fn message(&self) -> (s: String)
        ensures
            s@ == self.0@,
    {
        self.0.clone()
    }
}

} // verus!
