//! The typed command surface: what the command-line adapter hands to the
//! core. One process invocation carries exactly one of these commands.

use vstd::prelude::*;

verus! {

/// A parsed invocation: the one command to apply to the store.
#[derive(Debug)]
pub struct Cli {
    pub command: Commands,
}

/// Every operation the tracker offers.
#[derive(Debug)]
pub enum Commands {
    /// Print every task.
    View,
    /// Add a new task.
    Add(AddTaskArgs),
    /// Remove a task by name.
    Remove(TaskNameArg),
    /// Update fields of a task.
    Update(UpdateTaskArgs),
    /// Mark a task completed.
    Complete(TaskNameArg),
    /// Mark a task not completed.
    Uncomplete(TaskNameArg),
    /// Print whether a task is completed.
    Status(TaskNameArg),
    /// Drop every completed task.
    ClearCompleted,
    /// Drop every task.
    ClearAll,
}

/// Parameters of the add command.
#[derive(Debug)]
pub struct AddTaskArgs {
    pub name: String,
    pub description: Option<String>,
    pub date: Option<String>,
}

/// A command that names one task.
#[derive(Debug)]
pub struct TaskNameArg {
    pub name: String,
}

/// Parameters of the update command: the task to change and an optional
/// replacement for each field. At least one replacement must be given.
#[derive(Debug)]
pub struct UpdateTaskArgs {
    pub name: String,
    pub new_name: Option<String>,
    pub description: Option<String>,
    pub date: Option<String>,
    pub completed: Option<bool>,
}

} // verus!
