use vstd::prelude::*;

verus! {

/// What can go wrong when working with the task store.
#[derive(Debug, PartialEq, Eq)]
pub enum TaskError {
    /// No task carries this id.
    TaskNotFound(usize),
    /// Reading or writing the backing file failed; holds the cause.
    Io(String),
    /// The named field was given no value.
    Empty(String),
    /// The stored data could not be read as task records; holds the cause.
    Json(String),
    /// Anything else; holds a description.
    Unknown(String),
    /// The line editor failed; holds the cause.
    Readline(String),
    /// The user cancelled an input prompt.
    InputCancelled,
    /// A command argument had the wrong form; holds a description.
    ArgumentMismatch(String),
}

} // verus!
