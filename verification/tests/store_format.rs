use task_timer::cli::parse_args;
use task_timer::codec::{decode_manager, encode_manager};
use task_timer::commands::handle_command;
use task_timer::display::display_task;
use task_timer::{Task, TaskError, TaskManager, TaskStatus};

// One whole process invocation: load the manager from the stored
// text (or start fresh), run the retention pass, dispatch exactly one
// command, and store the new state on success.
fn invoke(store: &mut Option<String>, words: &[&str]) -> Result<String, TaskError> {
    let mut manager = match store {
        Some(text) => match decode_manager(text) {
            Some(mut loaded) => {
                loaded.cleanup_old_tasks();
                loaded
            },
            None => TaskManager::new(),
        },
        None => TaskManager::new(),
    };
    let mut args: Vec<String> = Vec::new();
    args.push("task-timer".to_string());
    for w in words {
        args.push(w.to_string());
    }
    let command = parse_args(&args).expect("the command line should parse");
    let result = handle_command(&mut manager, command);
    if result.is_ok() {
        *store = Some(encode_manager(&manager));
    }
    result
}

#[test]
fn test_persistence_start_pause_resume_workflow() {
    let mut store: Option<String> = None;

    let out = invoke(&mut store, &["start", "Persistent Task"]).unwrap();
    assert!(out.contains("Started task: 'Persistent Task'"));

    let out = invoke(&mut store, &["pause"]).unwrap();
    assert!(out.contains("Paused task"));
    assert!(out.contains("Persistent Task"));
    assert!(out.contains("Paused"));

    let out = invoke(&mut store, &["status"]).unwrap();
    assert!(out.contains("Persistent Task"));
    assert!(out.contains("Paused"));

    let out = invoke(&mut store, &["resume"]).unwrap();
    assert!(out.contains("Resumed task"));
    assert!(out.contains("Persistent Task"));
    assert!(out.contains("Running"));

    let out = invoke(&mut store, &["status"]).unwrap();
    assert!(out.contains("Persistent Task"));
    assert!(out.contains("Running"));
}

#[test]
fn test_multiple_tasks_persistence() {
    let mut store: Option<String> = None;

    invoke(&mut store, &["start", "Task One"]).unwrap();
    invoke(&mut store, &["start", "Task Two"]).unwrap();

    let out = invoke(&mut store, &["list"]).unwrap();
    assert!(out.contains("Task One"));
    assert!(out.contains("Task Two"));
    assert!(out.contains("Paused"));
    assert!(out.contains("Running"));
    assert!(out.contains("2 tasks"));
}

#[test]
fn test_multiple_tasks_with_completions() {
    let mut store: Option<String> = None;

    invoke(&mut store, &["start", "Task 1"]).unwrap();
    invoke(&mut store, &["complete"]).unwrap();
    invoke(&mut store, &["start", "Task 2"]).unwrap();
    invoke(&mut store, &["complete"]).unwrap();
    invoke(&mut store, &["start", "Task 3"]).unwrap();

    let out = invoke(&mut store, &["list"]).unwrap();
    assert!(out.contains("Task 1"));
    assert!(out.contains("Task 2"));
    assert!(out.contains("Task 3"));
    assert!(out.contains("3 tasks"));
    assert!(out.contains("Running: 1"));
    assert!(out.contains("Completed: 2"));

    let out = invoke(&mut store, &["status"]).unwrap();
    assert!(out.contains("Task 3"));
    assert!(out.contains("Running"));
}

#[test]
fn test_completed_task_persistence() {
    let mut store: Option<String> = None;

    invoke(&mut store, &["start", "Completed Work"]).unwrap();
    invoke(&mut store, &["complete"]).unwrap();

    let out = invoke(&mut store, &["list"]).unwrap();
    assert!(out.contains("Completed Work"));
    assert!(out.contains("Completed"));

    let out = invoke(&mut store, &["status"]).unwrap();
    assert!(out.contains("No active task"));
}

#[test]
fn round_trip_empty_manager() {
    let manager = TaskManager::new();
    let stored = encode_manager(&manager);
    assert_eq!(stored, "{\"active_task_index\":null,\"tasks\":[]}");

    let reloaded = decode_manager(&stored).unwrap();
    assert_eq!(reloaded.tasks.len(), 0);
    assert_eq!(reloaded.active_task_index, None);
}

#[test]
fn round_trip_label_with_quotes_and_backslashes() {
    let mut manager = TaskManager::new();
    manager
        .start_task_at("say \"hi\" \\ done".to_string(), 1000)
        .unwrap();
    manager.pause_current_task_at(2000).unwrap();

    let stored = encode_manager(&manager);
    let reloaded = decode_manager(&stored).unwrap();
    assert_eq!(reloaded.tasks.len(), 1);
    assert_eq!(reloaded.tasks[0].label, "say \"hi\" \\ done");
    assert_eq!(reloaded.tasks[0].status, TaskStatus::Paused);
    assert_eq!(reloaded.tasks[0].created_at, 1000);
    assert_eq!(reloaded.tasks[0].accumulated_duration, 1000);
    assert_eq!(reloaded.active_task_index, Some(0));
}

#[test]
fn round_trip_negative_creation_time() {
    let mut manager = TaskManager::new();
    manager.tasks.push(Task::new_at("old".to_string(), -86400000));
    manager.active_task_index = Some(0);

    let stored = encode_manager(&manager);
    let reloaded = decode_manager(&stored).unwrap();
    assert_eq!(reloaded.tasks[0].created_at, -86400000);
    assert_eq!(reloaded.tasks[0].started_at, Some(-86400000));
}

#[test]
fn decode_rejects_malformed_text() {
    assert!(decode_manager("").is_none());
    assert!(decode_manager("not a stored manager").is_none());
    assert!(decode_manager("{\"active_task_index\":null,\"tasks\":[").is_none());
    assert!(decode_manager("{\"active_task_index\":null,\"tasks\":[]}trailing").is_none());
}

#[test]
fn decode_rejects_inconsistent_manager() {
    // A focus index that points past the task list breaks the
    // invariant; reading such a store must fail rather than hand back
    // a manager other operations cannot trust.
    let broken = TaskManager { tasks: Vec::new(), active_task_index: Some(3) };
    let stored = encode_manager(&broken);
    assert!(decode_manager(&stored).is_none());
}

#[test]
fn lifecycle_scenario_start_pause_resume_complete() {
    let mut manager = TaskManager::new();
    manager.start_task_at("A".to_string(), 1000).unwrap();
    manager.pause_current_task_at(2000).unwrap();
    manager.resume_current_task_at(3000).unwrap();
    manager.complete_current_task_at(4500).unwrap();

    assert!(manager.current_task().is_none());
    assert_eq!(manager.task_count(), 1);
    assert_eq!(manager.tasks[0].status, TaskStatus::Completed);
    // One second from the first session, one and a half from the
    // second; frozen at every later reading.
    assert_eq!(manager.tasks[0].total_duration_at(4500), 2500);
    assert_eq!(manager.tasks[0].total_duration_at(1_000_000), 2500);
    assert!(manager.tasks[0].total_duration() > 0);
}

#[test]
fn lifecycle_scenario_two_starts() {
    let mut manager = TaskManager::new();
    manager.start_task_at("A".to_string(), 1000).unwrap();
    manager.start_task_at("B".to_string(), 3500).unwrap();

    assert_eq!(manager.task_count(), 2);
    assert_eq!(manager.tasks[0].label, "A");
    assert_eq!(manager.tasks[0].status, TaskStatus::Paused);
    // The first task absorbed its elapsed running time when the
    // second one took over.
    assert_eq!(manager.tasks[0].accumulated_duration, 2500);
    assert_eq!(manager.tasks[1].label, "B");
    assert_eq!(manager.tasks[1].status, TaskStatus::Running);
    assert_eq!(manager.active_task_index, Some(1));
}

#[test]
fn retention_prefers_newest_completed_and_keeps_active() {
    let mut manager = TaskManager::new();
    for i in 0..15 {
        let mut task = Task::new_at(format!("T{}", i), (i as i64) * 1000);
        if i < 10 {
            task.status = TaskStatus::Completed;
            task.started_at = None;
        } else if i < 14 {
            task.status = TaskStatus::Paused;
            task.started_at = None;
        }
        manager.tasks.push(task);
    }
    manager.active_task_index = Some(14);

    manager.cleanup_old_tasks();

    // The five non-completed tasks survive in order, then the five
    // newest completed tasks, oldest first; the focus follows its
    // task.
    assert_eq!(manager.tasks.len(), 10);
    assert_eq!(manager.tasks[0].label, "T10");
    assert_eq!(manager.tasks[1].label, "T11");
    assert_eq!(manager.tasks[2].label, "T12");
    assert_eq!(manager.tasks[3].label, "T13");
    assert_eq!(manager.tasks[4].label, "T14");
    assert_eq!(manager.tasks[5].label, "T5");
    assert_eq!(manager.tasks[6].label, "T6");
    assert_eq!(manager.tasks[7].label, "T7");
    assert_eq!(manager.tasks[8].label, "T8");
    assert_eq!(manager.tasks[9].label, "T9");
    assert_eq!(manager.active_task_index, Some(4));
    assert_eq!(manager.current_task().unwrap().label, "T14");
}

#[test]
fn retention_leaves_small_stores_alone() {
    let mut manager = TaskManager::new();
    for i in 0..10 {
        let mut task = Task::new_at(format!("T{}", i), (i as i64) * 1000);
        task.status = TaskStatus::Completed;
        task.started_at = None;
        manager.tasks.push(task);
    }

    manager.cleanup_old_tasks();
    assert_eq!(manager.tasks.len(), 10);
    assert_eq!(manager.tasks[0].label, "T0");
}

#[test]
fn total_duration_grows_while_running_and_freezes_on_pause() {
    let mut task = Task::new_at("x".to_string(), 1000);
    assert_eq!(task.total_duration_at(1000), 0);
    assert_eq!(task.total_duration_at(2000), 1000);
    assert_eq!(task.total_duration_at(3000), 2000);

    task.pause_at(2500).unwrap();
    assert_eq!(task.accumulated_duration, 1500);
    assert_eq!(task.total_duration_at(3000), 1500);
    assert_eq!(task.total_duration_at(1_000_000), 1500);
}

#[test]
fn pause_fails_when_clock_runs_backward() {
    let mut task = Task::new_at("x".to_string(), 1000);
    let result = task.pause_at(500);
    match result.unwrap_err() {
        TaskError::InvalidDuration => {},
        _ => panic!("Expected InvalidDuration error"),
    }
    // The failed pause leaves the task untouched.
    assert_eq!(task.status, TaskStatus::Running);
    assert_eq!(task.started_at, Some(1000));
    assert_eq!(task.accumulated_duration, 0);
}

#[test]
fn pause_fails_when_the_total_cannot_be_represented() {
    let mut task = Task::new_at("x".to_string(), 0);
    task.accumulated_duration = u64::MAX;
    let result = task.pause_at(1000);
    match result.unwrap_err() {
        TaskError::InvalidDuration => {},
        _ => panic!("Expected InvalidDuration error"),
    }
}

#[test]
fn completed_task_refuses_further_transitions() {
    let mut task = Task::new_at("x".to_string(), 1000);
    task.complete_at(2000).unwrap();
    assert!(task.is_completed());
    assert_eq!(task.accumulated_duration, 1000);

    match task.pause_at(3000).unwrap_err() {
        TaskError::TaskCompleted => {},
        _ => panic!("Expected TaskCompleted error"),
    }
    match task.resume_at(3000).unwrap_err() {
        TaskError::TaskCompleted => {},
        _ => panic!("Expected TaskCompleted error"),
    }
    match task.complete_at(3000).unwrap_err() {
        TaskError::TaskCompleted => {},
        _ => panic!("Expected TaskCompleted error"),
    }
}

#[test]
fn task_line_renders_the_creation_time() {
    // The epoch renders through the calendar, not as a raw number.
    let task = Task::new_at("epoch".to_string(), 0);
    let line = display_task(&task, None);
    assert!(line.contains("1970-01-01 00:00:00 UTC"));
}

#[test]
fn error_messages_read_exactly() {
    let mut manager = TaskManager::new();
    manager.start_task_at("Solo".to_string(), 1000).unwrap();

    let err = manager.delete_task(1).unwrap_err();
    assert_eq!(
        err.message(),
        "Invalid state: Cannot delete task 'Solo' - task is currently running. Please pause or complete it first."
    );

    manager.pause_current_task_at(2000).unwrap();
    let err = manager.delete_task(1).unwrap_err();
    assert_eq!(
        err.message(),
        "Invalid state: Cannot delete task 'Solo' - task is currently paused. Please resume and complete it, or complete it directly."
    );

    manager.complete_current_task_at(3000).unwrap();
    let err = manager.delete_task(5).unwrap_err();
    assert_eq!(
        err.message(),
        "Invalid state: Task index 5 is out of bounds. Valid range: 1-1"
    );

    let err = manager.rename_task(0, "X".to_string()).unwrap_err();
    assert_eq!(err.message(), "Invalid state: Task index must be greater than 0");

    let err = manager.rename_task(1, "  ".to_string()).unwrap_err();
    assert_eq!(err.message(), "Task label cannot be empty");
}

#[test]
fn manager_invariant_holds_after_every_operation() {
    let mut manager = TaskManager::new();
    assert!(manager.is_wf());

    manager.start_task_at("A".to_string(), 1000).unwrap();
    assert!(manager.is_wf());
    manager.pause_current_task_at(2000).unwrap();
    assert!(manager.is_wf());
    manager.resume_current_task_at(3000).unwrap();
    assert!(manager.is_wf());
    manager.start_task_at("B".to_string(), 4000).unwrap();
    assert!(manager.is_wf());
    manager.rename_task(1, "A renamed".to_string()).unwrap();
    assert!(manager.is_wf());
    manager.complete_current_task_at(5000).unwrap();
    assert!(manager.is_wf());
    manager.delete_task(2).unwrap();
    assert!(manager.is_wf());
    manager.delete_completed_tasks().unwrap();
    assert!(manager.is_wf());
    manager.cleanup_old_tasks();
    assert!(manager.is_wf());

    // The reload path hands back nothing but well-formed managers.
    let reloaded = decode_manager(&encode_manager(&manager)).unwrap();
    assert!(reloaded.is_wf());
}

#[test]
fn delete_arguments_parse_strictly() {
    let mut manager = TaskManager::new();

    // An index too large for the machine is rejected by the parser.
    let args = vec![
        "task-timer".to_string(),
        "delete".to_string(),
        "18446744073709551616".to_string(),
    ];
    assert!(parse_args(&args).is_err());

    // A non-numeric index is rejected by the parser.
    let args = vec![
        "task-timer".to_string(),
        "delete".to_string(),
        "abc".to_string(),
    ];
    assert!(parse_args(&args).is_err());

    // The flag cannot be given twice.
    let args = vec![
        "task-timer".to_string(),
        "delete".to_string(),
        "--completed".to_string(),
        "--completed".to_string(),
    ];
    assert!(parse_args(&args).is_err());

    // Without an index or the flag, the command itself reports the
    // missing argument.
    let args = vec!["task-timer".to_string(), "delete".to_string()];
    let command = parse_args(&args).unwrap();
    let err = handle_command(&mut manager, command).unwrap_err();
    assert!(err
        .message()
        .contains("Please specify a task index or use --completed flag"));
}
