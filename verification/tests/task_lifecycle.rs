use task_timer::codec::{decode_manager, encode_manager};
use task_timer::{Task, TaskError, TaskManager, TaskStatus};

#[test]
fn task_test_new_task_creation() {
    let task = Task::new("Test Task".to_string());

    assert_eq!(task.label, "Test Task");
    assert_eq!(task.status, TaskStatus::Running);
    assert!(task.started_at.is_some());
    assert_eq!(task.accumulated_duration, 0);
    assert!(task.is_running());
    assert!(!task.is_paused());
    assert!(!task.is_completed());
}

#[test]
fn task_test_task_pause_already_paused() {
    let mut task = Task::new("Test Task".to_string());
    task.pause().unwrap();

    let result = task.pause();
    assert!(result.is_err());
    match result.unwrap_err() {
        TaskError::TaskAlreadyPaused => {},
        _ => panic!("Expected TaskAlreadyPaused error"),
    }
}

#[test]
fn task_test_task_resume() {
    let mut task = Task::new("Test Task".to_string());
    task.pause().unwrap();

    let result = task.resume();
    assert!(result.is_ok());
    assert_eq!(task.status, TaskStatus::Running);
    assert!(task.started_at.is_some());
    assert!(task.is_running());
    assert!(!task.is_paused());
}

#[test]
fn task_test_task_resume_already_running() {
    let mut task = Task::new("Test Task".to_string());

    let result = task.resume();
    assert!(result.is_err());
    match result.unwrap_err() {
        TaskError::TaskAlreadyRunning => {},
        _ => panic!("Expected TaskAlreadyRunning error"),
    }
}

#[test]
fn task_test_task_manager_start_task() {
    let mut manager = TaskManager::new();

    let task_index = manager.start_task("First Task".to_string()).unwrap();
    assert_eq!(task_index, 0);
    assert_eq!(manager.task_count(), 1);
    assert!(manager.has_running_task());

    let current_task = manager.current_task().unwrap();
    assert_eq!(current_task.label, "First Task");
    assert!(current_task.is_running());
}

#[test]
fn task_test_task_manager_pause_no_active_task() {
    let mut manager = TaskManager::new();

    let result = manager.pause_current_task();
    assert!(result.is_err());
    match result.unwrap_err() {
        TaskError::NoActiveTask => {},
        _ => panic!("Expected NoActiveTask error"),
    }
}

#[test]
fn task_test_task_manager_resume_current() {
    let mut manager = TaskManager::new();
    manager.start_task("Test Task".to_string()).unwrap();
    manager.pause_current_task().unwrap();

    let result = manager.resume_current_task();
    assert!(result.is_ok());

    let current_task = manager.current_task().unwrap();
    assert!(current_task.is_running());
    assert!(manager.has_running_task());
}

#[test]
fn task_test_serialize_deserialize_task_manager() {
    let mut manager = TaskManager::new();
    let _task_id = manager.start_task("Test Task".to_string()).unwrap();
    manager.pause_current_task().unwrap();

    // Serialize to the stored text form
    let stored = encode_manager(&manager);
    assert!(stored.contains("Test Task"));
    assert!(stored.contains("Paused"));

    // Deserialize from the stored text form
    let deserialized = decode_manager(&stored).unwrap();
    assert_eq!(deserialized.tasks.len(), 1);
    assert_eq!(deserialized.active_task_index, Some(0));
    assert_eq!(deserialized.tasks[0].label, "Test Task");
    assert!(deserialized.tasks[0].is_paused());
}

#[test]
fn task_test_cleanup_old_tasks() {
    let mut manager = TaskManager::new();

    // Create 15 tasks (more than the 10 limit)
    for i in 0..15 {
        let _task_id = manager.start_task(format!("Task {}", i)).unwrap();
        // Complete old tasks by directly modifying tasks (simulating completed state)
        if i < 10 {
            // Access task directly for testing purposes
            if let Some(index) = manager.active_task_index {
                manager.tasks[index].status = TaskStatus::Completed;
                manager.active_task_index = None;
            }
        }
    }

    assert_eq!(manager.tasks.len(), 15);

    // Run cleanup
    manager.cleanup_old_tasks();

    // Should have at most 10 tasks
    assert!(manager.tasks.len() <= 10);

    // Should preserve the most recent active/incomplete tasks
    let mut has_recent_tasks = false;
    for task in &manager.tasks {
        if task.label.contains("Task 14") || task.label.contains("Task 13") {
            has_recent_tasks = true;
        }
    }
    assert!(has_recent_tasks);
}

#[test]
fn task_test_cleanup_preserves_active_task() {
    let mut manager = TaskManager::new();

    // Create many completed tasks
    for i in 0..12 {
        let _task_id = manager.start_task(format!("Completed Task {}", i)).unwrap();
        // Simulate completion by setting status directly
        if let Some(index) = manager.active_task_index {
            manager.tasks[index].status = TaskStatus::Completed;
            manager.active_task_index = None;
        }
    }

    // Create one active task
    let _active_id = manager
        .start_task("Important Active Task".to_string())
        .unwrap();

    assert_eq!(manager.tasks.len(), 13);

    // Run cleanup
    manager.cleanup_old_tasks();

    // Should still have the active task
    assert!(manager.active_task_index.is_some());
    let current_task = manager.current_task().unwrap();
    assert_eq!(current_task.label, "Important Active Task");
    assert!(manager.tasks.len() <= 10);
}

#[test]
fn task_test_complete_current_task_no_active() {
    let mut manager = TaskManager::new();

    let result = manager.complete_current_task();
    assert!(result.is_err());
    match result.unwrap_err() {
        TaskError::NoActiveTask => {},
        _ => panic!("Expected NoActiveTask error"),
    }
}

#[test]
fn task_test_complete_task_cannot_be_resumed() {
    let mut manager = TaskManager::new();
    manager.start_task("Test Task".to_string()).unwrap();
    manager.complete_current_task().unwrap();

    // Task is completed and no longer active
    // Trying to resume should fail since there's no active task
    let result = manager.resume_current_task();
    assert!(result.is_err());
    match result.unwrap_err() {
        TaskError::NoActiveTask => {},
        _ => panic!("Expected NoActiveTask error"),
    }
}

#[test]
fn task_tests_test_new_task_creation() {
    let task = Task::new("Test Task".to_string());

    assert_eq!(task.label, "Test Task");
    assert_eq!(task.status, TaskStatus::Running);
    assert!(task.started_at.is_some());
    assert_eq!(task.accumulated_duration, 0);
    assert!(task.is_running());
    assert!(!task.is_paused());
    assert!(!task.is_completed());
}

#[test]
fn task_tests_test_task_pause_already_paused() {
    let mut task = Task::new("Test Task".to_string());
    task.pause().unwrap();

    let result = task.pause();
    assert!(result.is_err());
    match result.unwrap_err() {
        TaskError::TaskAlreadyPaused => {},
        _ => panic!("Expected TaskAlreadyPaused error"),
    }
}

#[test]
fn task_tests_test_task_resume() {
    let mut task = Task::new("Test Task".to_string());
    task.pause().unwrap();

    let result = task.resume();
    assert!(result.is_ok());
    assert_eq!(task.status, TaskStatus::Running);
    assert!(task.started_at.is_some());
    assert!(task.is_running());
    assert!(!task.is_paused());
}

#[test]
fn task_tests_test_task_resume_already_running() {
    let mut task = Task::new("Test Task".to_string());

    let result = task.resume();
    assert!(result.is_err());
    match result.unwrap_err() {
        TaskError::TaskAlreadyRunning => {},
        _ => panic!("Expected TaskAlreadyRunning error"),
    }
}

#[test]
fn task_tests_test_task_manager_start_task() {
    let mut manager = TaskManager::new();

    let task_index = manager.start_task("First Task".to_string()).unwrap();
    assert_eq!(task_index, 0);
    assert_eq!(manager.task_count(), 1);
    assert!(manager.has_running_task());

    let current_task = manager.current_task().unwrap();
    assert_eq!(current_task.label, "First Task");
    assert!(current_task.is_running());
}

#[test]
fn task_tests_test_task_manager_pause_no_active_task() {
    let mut manager = TaskManager::new();

    let result = manager.pause_current_task();
    assert!(result.is_err());
    match result.unwrap_err() {
        TaskError::NoActiveTask => {},
        _ => panic!("Expected NoActiveTask error"),
    }
}

#[test]
fn task_tests_test_task_manager_resume_current() {
    let mut manager = TaskManager::new();
    manager.start_task("Test Task".to_string()).unwrap();
    manager.pause_current_task().unwrap();

    let result = manager.resume_current_task();
    assert!(result.is_ok());

    let current_task = manager.current_task().unwrap();
    assert!(current_task.is_running());
    assert!(manager.has_running_task());
}

#[test]
fn task_tests_test_serialize_deserialize_task_manager() {
    let mut manager = TaskManager::new();
    let _task_id = manager.start_task("Test Task".to_string()).unwrap();
    manager.pause_current_task().unwrap();

    // Serialize to the stored text form
    let stored = encode_manager(&manager);
    assert!(stored.contains("Test Task"));
    assert!(stored.contains("Paused"));

    // Deserialize from the stored text form
    let deserialized = decode_manager(&stored).unwrap();
    assert_eq!(deserialized.tasks.len(), 1);
    assert_eq!(deserialized.active_task_index, Some(0));
    assert_eq!(deserialized.tasks[0].label, "Test Task");
    assert!(deserialized.tasks[0].is_paused());
}

#[test]
fn task_tests_test_cleanup_old_tasks() {
    let mut manager = TaskManager::new();

    for i in 0..15 {
        let _task_id = manager.start_task(format!("Task {}", i)).unwrap();
        if i < 10 {
            if let Some(index) = manager.active_task_index {
                manager.tasks[index].status = TaskStatus::Completed;
                manager.active_task_index = None;
            }
        }
    }

    assert_eq!(manager.tasks.len(), 15);

    manager.cleanup_old_tasks();

    assert!(manager.tasks.len() <= 10);

    let mut has_recent_tasks = false;
    for task in &manager.tasks {
        if task.label.contains("Task 14") || task.label.contains("Task 13") {
            has_recent_tasks = true;
        }
    }
    assert!(has_recent_tasks);
}

#[test]
fn task_tests_test_cleanup_preserves_active_task() {
    let mut manager = TaskManager::new();

    for i in 0..12 {
        let _task_id = manager.start_task(format!("Completed Task {}", i)).unwrap();
        if let Some(index) = manager.active_task_index {
            manager.tasks[index].status = TaskStatus::Completed;
            manager.active_task_index = None;
        }
    }

    let _active_id = manager
        .start_task("Important Active Task".to_string())
        .unwrap();

    assert_eq!(manager.tasks.len(), 13);

    manager.cleanup_old_tasks();

    assert!(manager.active_task_index.is_some());
    let current_task = manager.current_task().unwrap();
    assert_eq!(current_task.label, "Important Active Task");
    assert!(manager.tasks.len() <= 10);
}

#[test]
fn task_tests_test_complete_current_task_no_active() {
    let mut manager = TaskManager::new();

    let result = manager.complete_current_task();
    assert!(result.is_err());
    match result.unwrap_err() {
        TaskError::NoActiveTask => {},
        _ => panic!("Expected NoActiveTask error"),
    }
}

#[test]
fn task_tests_test_complete_task_cannot_be_resumed() {
    let mut manager = TaskManager::new();
    manager.start_task("Test Task".to_string()).unwrap();
    manager.complete_current_task().unwrap();

    let result = manager.resume_current_task();
    assert!(result.is_err());
    match result.unwrap_err() {
        TaskError::NoActiveTask => {},
        _ => panic!("Expected NoActiveTask error"),
    }
}

#[test]
fn test_error_handling_workflow() {
    let mut manager = TaskManager::new();

    // Try to pause without any task - should fail
    let result = manager.pause_current_task();
    assert!(result.is_err());
    assert_eq!(
        result.unwrap_err().message(),
        "No active task to operate on"
    );

    // Try to resume without any task - should fail
    let result = manager.resume_current_task();
    assert!(result.is_err());

    // Start a task
    manager.start_task("Test Task".to_string()).unwrap();

    // Try to resume a running task - should fail
    let result = manager.resume_current_task();
    assert!(result.is_err());
    assert_eq!(result.unwrap_err().message(), "Task is already running");

    // Pause the task
    manager.pause_current_task().unwrap();

    // Try to pause an already paused task - should fail
    let result = manager.pause_current_task();
    assert!(result.is_err());
    assert_eq!(result.unwrap_err().message(), "Task is already paused");

    println!("Error handling workflow passed");
}
