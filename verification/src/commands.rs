//! Dispatch of a parsed command against a task manager: exactly one
//! manager operation per invocation, and the message the user sees.

use vstd::prelude::*;

use crate::cli::Commands;
use crate::display::{
    display_current_status_at, display_task_summary_at, spec_display_current_status,
    spec_display_summary,
};
use crate::errors::TaskError;
use crate::manager::{
    spec_complete_current, spec_completed_count, spec_non_completed, spec_pause_current,
    spec_resume_current, spec_start_task, ManagerView, TaskManager,
};
use crate::numbers::dec_rep;
use crate::strutil::label_ok;
use crate::task::TaskView;
use crate::time::now_millis;

verus! {

/// A message result, with the message as a character sequence.
pub open spec fn result_msg_view(r: Result<String, TaskError>) -> Result<Seq<char>, TaskError> {
    match r {
        Ok(s) => Ok(s@),
        Err(e) => Err(e),
    }
}

/// The task a manager has in focus, if any.
pub open spec fn spec_current_view(m: ManagerView) -> Option<TaskView> {
    match m.active_task_index {
        Some(a) => Some(m.tasks[a]),
        None => None,
    }
}

/// What handling one command at clock reading `now` does: how the
/// manager `m0` becomes `m1`, and the message or error `r` reported.
pub open spec fn spec_handle_post(
    m0: ManagerView,
    cmd: Commands,
    now: int,
    m1: ManagerView,
    r: Result<Seq<char>, TaskError>,
) -> bool {
    match cmd {
        Commands::Start { label } => {
            let (mv, rv) = spec_start_task(m0, label@, now);
            &&& m1 == mv
            &&& match rv {
                Ok(_) => r matches Ok(msg) && msg == "Started task: '"@ + label@ + "'"@,
                Err(e) => r == Err::<Seq<char>, TaskError>(e),
            }
        },
        Commands::Pause => {
            let (mv, rv) = spec_pause_current(m0, now);
            &&& m1 == mv
            &&& match rv {
                Ok(_) => r matches Ok(msg) && msg == "Paused task. "@
                    + spec_display_current_status(spec_current_view(mv), now),
                Err(e) => r == Err::<Seq<char>, TaskError>(e),
            }
        },
        Commands::Resume => {
            let (mv, rv) = spec_resume_current(m0, now);
            &&& m1 == mv
            &&& match rv {
                Ok(_) => r matches Ok(msg) && msg == "Resumed task. "@
                    + spec_display_current_status(spec_current_view(mv), now),
                Err(e) => r == Err::<Seq<char>, TaskError>(e),
            }
        },
        Commands::Status => {
            &&& m1 == m0
            &&& r matches Ok(msg) && msg == spec_display_current_status(
                spec_current_view(m0),
                now,
            )
        },
        Commands::List => {
            &&& m1 == m0
            &&& r matches Ok(msg) && msg == spec_display_summary(m0.tasks, now)
        },
        Commands::Complete => {
            match m0.active_task_index {
                None => m1 == m0 && r == Err::<Seq<char>, TaskError>(TaskError::NoActiveTask),
                Some(a) => {
                    let (mv, rv) = spec_complete_current(m0, now);
                    &&& m1 == mv
                    &&& match rv {
                        Ok(_) => r matches Ok(msg) && msg == "Completed task: '"@
                            + m0.tasks[a].label + "'"@,
                        Err(e) => r == Err::<Seq<char>, TaskError>(e),
                    }
                },
            }
        },
        Commands::Delete { index, completed } => {
            if completed {
                let count = spec_completed_count(m0.tasks);
                &&& m1.tasks == spec_non_completed(m0.tasks)
                &&& m1.active_task_index == (match m0.active_task_index {
                    Some(a) => Some(spec_non_completed(m0.tasks.take(a)).len() as int),
                    None => None,
                })
                &&& if count == 0 {
                    r matches Ok(msg) && msg == "No completed tasks to delete"@
                } else {
                    r matches Ok(msg) && msg == dec_rep(count)
                        + " completed task(s) deleted successfully"@
                }
            } else {
                match index {
                    None => m1 == m0 && (r matches Err(TaskError::InvalidState { message })
                        && message@ == "Please specify a task index or use --completed flag"@),
                    Some(idx) => {
                        if m0.tasks.len() == 0 {
                            m1 == m0 && (r matches Err(TaskError::InvalidState { message })
                                && message@ == "No tasks available to delete"@)
                        } else if idx == 0 {
                            m1 == m0 && (r matches Err(TaskError::InvalidState { message })
                                && message@ == "Task index must be greater than 0"@)
                        } else if idx > m0.tasks.len() {
                            m1 == m0 && (r matches Err(TaskError::InvalidState { message })
                                && message@ == "Task index "@ + dec_rep(idx as int)
                                + " is out of bounds. Valid range: 1-"@ + dec_rep(
                                m0.tasks.len() as int,
                            ))
                        } else if m0.active_task_index == Some(idx - 1 as int) && m0.tasks[idx - 1
                            as int].status is Running {
                            m1 == m0 && (r matches Err(TaskError::InvalidState { message })
                                && message@ == "Cannot delete task '"@ + m0.tasks[idx - 1
                                as int].label
                                + "' - task is currently running. Please pause or complete it first."@)
                        } else if m0.active_task_index == Some(idx - 1 as int) && m0.tasks[idx - 1
                            as int].status is Paused {
                            m1 == m0 && (r matches Err(TaskError::InvalidState { message })
                                && message@ == "Cannot delete task '"@ + m0.tasks[idx - 1
                                as int].label
                                + "' - task is currently paused. Please resume and complete it, or complete it directly."@)
                        } else if m0.active_task_index == Some(idx - 1 as int) {
                            // The task in focus is never completed, so
                            // this case cannot arise.
                            true
                        } else {
                            &&& m1.tasks == m0.tasks.remove(idx - 1 as int)
                            &&& m1.active_task_index == (match m0.active_task_index {
                                Some(a) => if idx - 1 < a {
                                    Some((a - 1) as int)
                                } else {
                                    Some(a)
                                },
                                None => None,
                            })
                            &&& if m0.tasks[idx - 1 as int].label.len() > 0 {
                                r matches Ok(msg) && msg == "Task \""@ + m0.tasks[idx - 1
                                    as int].label + "\" deleted successfully"@
                            } else {
                                r matches Ok(msg) && msg == "Task deleted successfully"@
                            }
                        }
                    },
                }
            }
        },
        Commands::Rename { index, new_label } => {
            if index == 0 {
                m1 == m0 && (r matches Err(TaskError::InvalidState { message }) && message@
                    == "Task index must be greater than 0"@)
            } else if m0.tasks.len() == 0 {
                m1 == m0 && (r matches Err(TaskError::InvalidState { message }) && message@
                    == "No tasks available to rename"@)
            } else if index > m0.tasks.len() {
                m1 == m0 && (r matches Err(TaskError::InvalidState { message }) && message@
                    == "Task index "@ + dec_rep(index as int)
                    + " is out of bounds. Valid range: 1-"@ + dec_rep(m0.tasks.len() as int))
            } else if !label_ok(new_label@) {
                m1 == m0 && (r matches Err(TaskError::InvalidLabel { message }) && message@
                    == "Task label cannot be empty"@)
            } else {
                &&& m1.tasks == m0.tasks.update(
                    index - 1 as int,
                    (TaskView { label: new_label@, ..m0.tasks[index - 1 as int] }),
                )
                &&& m1.active_task_index == m0.active_task_index
                &&& r matches Ok(msg) && msg == "Task renamed from \""@ + m0.tasks[index - 1
                    as int].label + "\" to \""@ + new_label@ + "\""@
            }
        },
    }
}

/// Handles one command at clock reading `now`: invokes exactly one
/// manager operation and renders its outcome.
pub fn handle_command_at(task_manager: &mut TaskManager, command: Commands, now: i64) -> (r:
    Result<String, TaskError>)
    requires
        old(task_manager)@.wf(),
    ensures
        final(task_manager)@.wf(),
        spec_handle_post(old(task_manager)@, command, now as int, final(task_manager)@,
            result_msg_view(r)),
{
    match command {
        Commands::Start { label } => {
            let label_copy = label.clone();
            match task_manager.start_task_at(label, now) {
                Ok(_) => {
                    let mut msg = String::from_str("Started task: '");
                    msg.append(label_copy.as_str());
                    msg.append("'");
                    Ok(msg)
                },
                Err(e) => Err(e),
            }
        },
        Commands::Pause => {
            match task_manager.pause_current_task_at(now) {
                Ok(_) => {
                    let mut msg = String::from_str("Paused task. ");
                    let current = task_manager.current_task();
                    let status = display_current_status_at(current, now);
                    msg.append(status.as_str());
                    Ok(msg)
                },
                Err(e) => Err(e),
            }
        },
        Commands::Resume => {
            match task_manager.resume_current_task_at(now) {
                Ok(_) => {
                    let mut msg = String::from_str("Resumed task. ");
                    let current = task_manager.current_task();
                    let status = display_current_status_at(current, now);
                    msg.append(status.as_str());
                    Ok(msg)
                },
                Err(e) => Err(e),
            }
        },
        Commands::Status => {
            let current = task_manager.current_task();
            Ok(display_current_status_at(current, now))
        },
        Commands::List => Ok(display_task_summary_at(task_manager.all_tasks(), now)),
        Commands::Complete => {
            let label: Option<String> = match task_manager.current_task() {
                Some(task) => Some(task.label.clone()),
                None => None,
            };
            match label {
                Some(label) => {
                    match task_manager.complete_current_task_at(now) {
                        Ok(_) => {
                            let mut msg = String::from_str("Completed task: '");
                            msg.append(label.as_str());
                            msg.append("'");
                            Ok(msg)
                        },
                        Err(e) => Err(e),
                    }
                },
                None => Err(TaskError::NoActiveTask),
            }
        },
        Commands::Delete { index, completed } => {
            if completed {
                match task_manager.delete_completed_tasks() {
                    Ok(count) => {
                        if count == 0 {
                            Ok(String::from_str("No completed tasks to delete"))
                        } else {
                            let mut msg = crate::numbers::usize_to_string(count);
                            msg.append(" completed task(s) deleted successfully");
                            Ok(msg)
                        }
                    },
                    Err(e) => Err(e),
                }
            } else if let Some(idx) = index {
                if task_manager.task_count() == 0 {
                    return Err(
                        TaskError::InvalidState {
                            message: String::from_str("No tasks available to delete"),
                        },
                    );
                }
                let task_label: String = if idx > 0 && idx <= task_manager.task_count() {
                    let tasks = task_manager.all_tasks();
                    proof {
                        assert(tasks.deep_view()[idx - 1 as int] == tasks@[idx - 1 as int]@);
                    }
                    tasks[idx - 1].label.clone()
                } else {
                    String::new()
                };
                match task_manager.delete_task(idx) {
                    Ok(_) => {
                        if !task_label.as_str().is_empty() {
                            let mut msg = String::from_str("Task \"");
                            msg.append(task_label.as_str());
                            msg.append("\" deleted successfully");
                            Ok(msg)
                        } else {
                            Ok(String::from_str("Task deleted successfully"))
                        }
                    },
                    Err(e) => Err(e),
                }
            } else {
                Err(
                    TaskError::InvalidState {
                        message: String::from_str(
                            "Please specify a task index or use --completed flag",
                        ),
                    },
                )
            }
        },
        Commands::Rename { index, new_label } => {
            let new_label_copy = new_label.clone();
            match task_manager.rename_task(index, new_label) {
                Ok(old_label) => {
                    let mut msg = String::from_str("Task renamed from \"");
                    msg.append(old_label.as_str());
                    msg.append("\" to \"");
                    msg.append(new_label_copy.as_str());
                    msg.append("\"");
                    Ok(msg)
                },
                Err(e) => Err(e),
            }
        },
    }
}

/// Handles one command at the current wall-clock time.
pub fn handle_command(task_manager: &mut TaskManager, command: Commands) -> (r: Result<
    String,
    TaskError,
>)
    requires
        old(task_manager)@.wf(),
    ensures
        final(task_manager)@.wf(),
        exists|now: int|
            #[trigger] spec_handle_post(old(task_manager)@, command, now, final(task_manager)@,
                result_msg_view(r)),
{
    let ghost cmd = command;
    let now: i64 = now_millis();
    let r = handle_command_at(task_manager, command, now);
    proof {
        assert(spec_handle_post(old(task_manager)@, cmd, now as int, task_manager@,
            result_msg_view(r)));
    }
    r
}

} // verus!
