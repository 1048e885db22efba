use task_timer::cli::parse_args;
use task_timer::commands::handle_command;
use task_timer::{TaskError, TaskManager};

// One command-line invocation against an in-memory manager: parse the
// words and dispatch the command.
fn run(manager: &mut TaskManager, words: &[&str]) -> Result<String, TaskError> {
    let mut args: Vec<String> = Vec::new();
    args.push("task-timer".to_string());
    for w in words {
        args.push(w.to_string());
    }
    let command = parse_args(&args).expect("the command line should parse");
    handle_command(manager, command)
}

#[test]
fn test_cli_start_task() {
    let mut manager = TaskManager::new();

    let out = run(&mut manager, &["start", "My Test Task"]).unwrap();
    assert!(out.contains("Started task: 'My Test Task'"));
}

#[test]
fn test_cli_start_task_with_spaces() {
    let mut manager = TaskManager::new();

    let out = run(&mut manager, &["start", "Task with spaces"]).unwrap();
    assert!(out.contains("Started task: 'Task with spaces'"));
}

#[test]
fn test_cli_pause_without_active_task() {
    let mut manager = TaskManager::new();

    let err = run(&mut manager, &["pause"]).unwrap_err();
    assert!(err.message().contains("No active task to operate on"));
}

#[test]
fn test_cli_resume_without_active_task() {
    let mut manager = TaskManager::new();

    let err = run(&mut manager, &["resume"]).unwrap_err();
    assert!(err.message().contains("No active task to operate on"));
}

#[test]
fn test_cli_status_no_active_task() {
    let mut manager = TaskManager::new();

    let out = run(&mut manager, &["status"]).unwrap();
    assert!(out.contains("No active task"));
}

#[test]
fn test_cli_list_empty() {
    let mut manager = TaskManager::new();

    let out = run(&mut manager, &["list"]).unwrap();
    assert!(out.contains("No tasks found"));
}

#[test]
fn test_cli_help() {
    let help = task_timer::cli::help_text();

    assert!(help.contains("A CLI tool for tracking time spent on tasks"));
    assert!(help.contains("start"));
    assert!(help.contains("pause"));
    assert!(help.contains("resume"));
    assert!(help.contains("status"));
    assert!(help.contains("list"));
}

#[test]
fn test_cli_invalid_command() {
    let args = vec![
        "task-timer".to_string(),
        "invalid-command".to_string(),
    ];
    let result = parse_args(&args);
    assert!(result.is_err());
}

#[test]
fn test_cli_start_without_label() {
    let args = vec!["task-timer".to_string(), "start".to_string()];
    let result = parse_args(&args);
    assert!(result.is_err());
}

#[test]
fn test_cli_complete_without_active_task() {
    let mut manager = TaskManager::new();

    let err = run(&mut manager, &["complete"]).unwrap_err();
    assert!(err.message().contains("No active task to operate on"));
}

#[test]
fn test_cli_complete_running_task() {
    let mut manager = TaskManager::new();

    run(&mut manager, &["start", "Task to complete"]).unwrap();

    let out = run(&mut manager, &["complete"]).unwrap();
    assert!(out.contains("Completed task: 'Task to complete'"));

    let status = run(&mut manager, &["status"]).unwrap();
    assert!(status.contains("No active task"));

    let list = run(&mut manager, &["list"]).unwrap();
    assert!(list.contains("Task to complete"));
    assert!(list.contains("Completed"));
}

#[test]
fn test_cli_complete_paused_task() {
    let mut manager = TaskManager::new();

    run(&mut manager, &["start", "Paused task"]).unwrap();
    run(&mut manager, &["pause"]).unwrap();

    let out = run(&mut manager, &["complete"]).unwrap();
    assert!(out.contains("Completed task: 'Paused task'"));

    let status = run(&mut manager, &["status"]).unwrap();
    assert!(status.contains("No active task"));
}

#[test]
fn test_cli_delete_specific_task_by_index() {
    let mut manager = TaskManager::new();

    run(&mut manager, &["start", "Task 1"]).unwrap();
    run(&mut manager, &["complete"]).unwrap();
    run(&mut manager, &["start", "Task 2"]).unwrap();
    run(&mut manager, &["complete"]).unwrap();
    run(&mut manager, &["start", "Task 3"]).unwrap();
    run(&mut manager, &["complete"]).unwrap();

    let list = run(&mut manager, &["list"]).unwrap();
    assert!(list.contains("Task 1"));
    assert!(list.contains("Task 2"));
    assert!(list.contains("Task 3"));

    let out = run(&mut manager, &["delete", "2"]).unwrap();
    assert!(out.contains("Task \"Task 2\" deleted successfully"));

    let list = run(&mut manager, &["list"]).unwrap();
    assert!(list.contains("Task 1"));
    assert!(list.contains("Task 3"));
    assert!(!list.contains("Task 2"));
}

#[test]
fn test_cli_delete_specific_task_using_short_alias() {
    let mut manager = TaskManager::new();

    run(&mut manager, &["start", "Task to delete with alias"]).unwrap();
    run(&mut manager, &["complete"]).unwrap();

    let out = run(&mut manager, &["d", "1"]).unwrap();
    assert!(out.contains("deleted successfully"));

    let list = run(&mut manager, &["list"]).unwrap();
    assert!(list.contains("No tasks found"));
}

#[test]
fn test_cli_delete_all_completed_tasks() {
    let mut manager = TaskManager::new();

    run(&mut manager, &["start", "Completed Task 1"]).unwrap();
    run(&mut manager, &["complete"]).unwrap();
    run(&mut manager, &["start", "Completed Task 2"]).unwrap();
    run(&mut manager, &["complete"]).unwrap();
    run(&mut manager, &["start", "Active Task"]).unwrap();

    let out = run(&mut manager, &["delete", "--completed"]).unwrap();
    assert!(out.contains("2 completed task(s) deleted successfully"));

    let list = run(&mut manager, &["list"]).unwrap();
    assert!(list.contains("Active Task"));
    assert!(!list.contains("Completed Task 1"));
    assert!(!list.contains("Completed Task 2"));
}

#[test]
fn test_cli_delete_all_completed_tasks_using_short_alias() {
    let mut manager = TaskManager::new();

    run(&mut manager, &["start", "Task 1"]).unwrap();
    run(&mut manager, &["complete"]).unwrap();

    let out = run(&mut manager, &["d", "--completed"]).unwrap();
    assert!(out.contains("1 completed task(s) deleted successfully"));

    let list = run(&mut manager, &["list"]).unwrap();
    assert!(list.contains("No tasks found"));
}

#[test]
fn test_cli_delete_invalid_index_out_of_bounds() {
    let mut manager = TaskManager::new();

    run(&mut manager, &["start", "Only Task"]).unwrap();
    run(&mut manager, &["complete"]).unwrap();

    let err = run(&mut manager, &["delete", "5"]).unwrap_err();
    assert!(err.message().contains("out of bounds"));

    let err = run(&mut manager, &["delete", "0"]).unwrap_err();
    assert!(err.message().contains("must be greater than 0"));
}

#[test]
fn test_cli_delete_active_running_task() {
    let mut manager = TaskManager::new();

    run(&mut manager, &["start", "Running Task"]).unwrap();

    let err = run(&mut manager, &["delete", "1"]).unwrap_err();
    assert!(err.message().contains("currently running"));
}

#[test]
fn test_cli_delete_active_paused_task() {
    let mut manager = TaskManager::new();

    run(&mut manager, &["start", "Paused Task"]).unwrap();
    run(&mut manager, &["pause"]).unwrap();

    let err = run(&mut manager, &["delete", "1"]).unwrap_err();
    assert!(err.message().contains("currently paused"));
}

#[test]
fn test_cli_delete_empty_task_list() {
    let mut manager = TaskManager::new();

    let err = run(&mut manager, &["delete", "1"]).unwrap_err();
    assert!(err.message().contains("No tasks available to delete"));
}

#[test]
fn test_cli_delete_no_completed_tasks() {
    let mut manager = TaskManager::new();

    run(&mut manager, &["start", "Running Task"]).unwrap();

    let out = run(&mut manager, &["delete", "--completed"]).unwrap();
    assert!(out.contains("No completed tasks to delete"));

    let status = run(&mut manager, &["status"]).unwrap();
    assert!(status.contains("Running Task"));
}

#[test]
fn test_cli_delete_updates_active_task_index() {
    let mut manager = TaskManager::new();

    run(&mut manager, &["start", "Task 1"]).unwrap();
    run(&mut manager, &["complete"]).unwrap();
    run(&mut manager, &["start", "Task 2"]).unwrap();
    run(&mut manager, &["complete"]).unwrap();
    run(&mut manager, &["start", "Task 3 Active"]).unwrap();

    run(&mut manager, &["delete", "1"]).unwrap();

    let status = run(&mut manager, &["status"]).unwrap();
    assert!(status.contains("Task 3 Active"));

    run(&mut manager, &["pause"]).unwrap();
}

#[test]
fn test_cli_rename_completed_task() {
    let mut manager = TaskManager::new();

    run(&mut manager, &["start", "Original Label"]).unwrap();
    run(&mut manager, &["complete"]).unwrap();

    let out = run(&mut manager, &["rename", "1", "Updated Label"]).unwrap();
    assert!(out.contains("Task renamed from \"Original Label\" to \"Updated Label\""));

    let list = run(&mut manager, &["list"]).unwrap();
    assert!(list.contains("Updated Label"));
    assert!(!list.contains("Original Label"));
}

#[test]
fn test_cli_rename_running_task() {
    let mut manager = TaskManager::new();

    run(&mut manager, &["start", "Running Task"]).unwrap();

    let out = run(&mut manager, &["rename", "1", "Renamed Running Task"]).unwrap();
    assert!(out.contains("Task renamed from \"Running Task\" to \"Renamed Running Task\""));

    let status = run(&mut manager, &["status"]).unwrap();
    assert!(status.contains("Renamed Running Task"));
    assert!(status.contains("Running"));
}

#[test]
fn test_cli_rename_paused_task() {
    let mut manager = TaskManager::new();

    run(&mut manager, &["start", "Paused Task"]).unwrap();
    run(&mut manager, &["pause"]).unwrap();

    let out = run(&mut manager, &["rename", "1", "Renamed Paused Task"]).unwrap();
    assert!(out.contains("Task renamed from \"Paused Task\" to \"Renamed Paused Task\""));

    let status = run(&mut manager, &["status"]).unwrap();
    assert!(status.contains("Renamed Paused Task"));
    assert!(status.contains("Paused"));
}

#[test]
fn test_cli_rename_using_short_alias() {
    let mut manager = TaskManager::new();

    run(&mut manager, &["start", "Task to Rename"]).unwrap();
    run(&mut manager, &["complete"]).unwrap();

    let out = run(&mut manager, &["e", "1", "Renamed with Alias"]).unwrap();
    assert!(out.contains("Task renamed"));

    let list = run(&mut manager, &["list"]).unwrap();
    assert!(list.contains("Renamed with Alias"));
}

#[test]
fn test_cli_rename_invalid_index_zero() {
    let mut manager = TaskManager::new();

    run(&mut manager, &["start", "Test Task"]).unwrap();
    run(&mut manager, &["complete"]).unwrap();

    let err = run(&mut manager, &["rename", "0", "New Label"]).unwrap_err();
    assert!(err.message().contains("must be greater than 0"));
}

#[test]
fn test_cli_rename_invalid_index_out_of_bounds() {
    let mut manager = TaskManager::new();

    run(&mut manager, &["start", "Test Task"]).unwrap();
    run(&mut manager, &["complete"]).unwrap();

    let err = run(&mut manager, &["rename", "99", "New Label"]).unwrap_err();
    assert!(err.message().contains("out of bounds"));
}

#[test]
fn test_cli_rename_empty_label() {
    let mut manager = TaskManager::new();

    run(&mut manager, &["start", "Test Task"]).unwrap();
    run(&mut manager, &["complete"]).unwrap();

    let err = run(&mut manager, &["rename", "1", ""]).unwrap_err();
    assert!(err.message().contains("empty"));
}

#[test]
fn test_cli_rename_whitespace_only_label() {
    let mut manager = TaskManager::new();

    run(&mut manager, &["start", "Test Task"]).unwrap();
    run(&mut manager, &["complete"]).unwrap();

    let err = run(&mut manager, &["rename", "1", "   "]).unwrap_err();
    assert!(err.message().contains("empty"));
}

#[test]
fn test_cli_rename_empty_task_list() {
    let mut manager = TaskManager::new();

    let err = run(&mut manager, &["rename", "1", "New Label"]).unwrap_err();
    assert!(err.message().contains("No tasks available"));
}

#[test]
fn test_cli_rename_multiple_tasks() {
    let mut manager = TaskManager::new();

    run(&mut manager, &["start", "Task 1"]).unwrap();
    run(&mut manager, &["complete"]).unwrap();
    run(&mut manager, &["start", "Original Task Two"]).unwrap();
    run(&mut manager, &["complete"]).unwrap();
    run(&mut manager, &["start", "Task 3"]).unwrap();
    run(&mut manager, &["complete"]).unwrap();

    run(&mut manager, &["rename", "2", "Renamed Task Two"]).unwrap();

    let list = run(&mut manager, &["list"]).unwrap();
    assert!(list.contains("Task 1"));
    assert!(list.contains("Renamed Task Two"));
    assert!(list.contains("Task 3"));
    assert!(!list.contains("Original Task Two"));
}
