//! Errors reported by task and task-manager operations.

use vstd::prelude::*;

verus! {

/// Errors that can occur during task operations.
#[derive(Debug, Clone, PartialEq, Eq)]
pub enum TaskError {
    /// No task is currently active.
    NoActiveTask,
    /// Task is already running.
    TaskAlreadyRunning,
    /// Task is already paused.
    TaskAlreadyPaused,
    /// Task has been completed and cannot be modified.
    TaskCompleted,
    /// Invalid duration calculation.
    InvalidDuration,
    /// Invalid state transition or index/bounds violation.
    InvalidState { message: String },
    /// Task not found with the given identifier.
    TaskNotFound { id: usize },
    /// A label failed validation.
    InvalidLabel { message: String },
}

impl TaskError {
    /// The human-readable message for this error.
    pub fn message(&self) -> (r: String)
        ensures
            r@ == self.spec_message(),
    {
        match self {
            TaskError::NoActiveTask => "No active task to operate on".to_owned(),
            TaskError::TaskAlreadyRunning => "Task is already running".to_owned(),
            TaskError::TaskAlreadyPaused => "Task is already paused".to_owned(),
            TaskError::TaskCompleted => "Task has been completed and cannot be modified".to_owned(),
            TaskError::InvalidDuration => "Invalid duration calculation".to_owned(),
            TaskError::InvalidState { message } => {
                let mut r = String::from_str("Invalid state: ");
                r.append(message.as_str());
                r
            },
            TaskError::TaskNotFound { id } => {
                let mut r = String::from_str("Task not found with id: ");
                let id_text = crate::numbers::usize_to_string(*id);
                r.append(id_text.as_str());
                r
            },
            TaskError::InvalidLabel { message } => message.clone(),
        }
    }

    /// The message text, as a mathematical sequence of characters.
    pub open spec fn spec_message(self) -> Seq<char> {
        match self {
            TaskError::NoActiveTask => "No active task to operate on"@,
            TaskError::TaskAlreadyRunning => "Task is already running"@,
            TaskError::TaskAlreadyPaused => "Task is already paused"@,
            TaskError::TaskCompleted => "Task has been completed and cannot be modified"@,
            TaskError::InvalidDuration => "Invalid duration calculation"@,
            TaskError::InvalidState { message } => "Invalid state: "@ + message@,
            TaskError::TaskNotFound { id } => "Task not found with id: "@
                + crate::numbers::dec_rep(id as int),
            TaskError::InvalidLabel { message } => message@,
        }
    }
}

} // verus!
