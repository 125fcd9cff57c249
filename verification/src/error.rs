//! The error taxonomy of the task tracker.

use vstd::prelude::*;
use vstd::string::StringExecFns;

verus! {

/// Result type of every fallible operation of the library.
pub type TodoResult<T> = Result<T, TodoError>;

/// Every way an operation can fail. `Io` and `Serialization` carry the
/// message of an underlying file or encoding failure; the other three are
/// validation errors raised by the store's own operations.
#[derive(Debug, PartialEq, Eq)]
pub enum TodoError {
    Io(String),
    Serialization(String),
    TaskNotFound,
    InvalidTaskState,
    DuplicateTask,
}

impl TodoError {
    /// The human-readable text of this error.
    pub open spec fn message_spec(&self) -> Seq<char> {
        match self {
            TodoError::Io(m) => "IO error: "@ + m@,
            TodoError::Serialization(m) => "JSON serialization/deserialization error: "@ + m@,
            TodoError::TaskNotFound => "Task not found"@,
            TodoError::InvalidTaskState => "Invalid task state"@,
            TodoError::DuplicateTask => "Duplicate task"@,
        }
    }

    /// Renders the error as one line of text.
    pub fn message(&self) -> (r: String)
        ensures
            r@ == self.message_spec(),
    {
        match self {
            TodoError::Io(m) => {
                let mut s = String::from_str("IO error: ");
                s.append(m.as_str());
                s
            },
            TodoError::Serialization(m) => {
                let mut s = String::from_str("JSON serialization/deserialization error: ");
                s.append(m.as_str());
                s
            },
            TodoError::TaskNotFound => String::from_str("Task not found"),
            TodoError::InvalidTaskState => String::from_str("Invalid task state"),
            TodoError::DuplicateTask => String::from_str("Duplicate task"),
        }
    }
}

} // verus!
