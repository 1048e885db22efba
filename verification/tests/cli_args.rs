use task_timer::cli::{help_text, parse_args, Commands};

fn args_of(words: &[&str]) -> Vec<String> {
    let mut v: Vec<String> = Vec::new();
    for w in words {
        v.push(w.to_string());
    }
    v
}

#[test]
fn test_cli_parsing_start_command() {
    let args = args_of(&["task-timer", "start", "My Task"]);
    let command = parse_args(&args).unwrap();

    match command {
        Commands::Start { label } => {
            assert_eq!(label, "My Task");
        },
        _ => panic!("Expected Start command"),
    }
}

#[test]
fn test_cli_parsing_pause_command() {
    let args = args_of(&["task-timer", "pause"]);
    let command = parse_args(&args).unwrap();

    matches!(command, Commands::Pause);
}

#[test]
fn test_cli_parsing_resume_command() {
    let args = args_of(&["task-timer", "resume"]);
    let command = parse_args(&args).unwrap();

    matches!(command, Commands::Resume);
}

#[test]
fn test_cli_parsing_status_command() {
    let args = args_of(&["task-timer", "status"]);
    let command = parse_args(&args).unwrap();

    matches!(command, Commands::Status);
}

#[test]
fn test_cli_parsing_list_command() {
    let args = args_of(&["task-timer", "list"]);
    let command = parse_args(&args).unwrap();

    matches!(command, Commands::List);
}

#[test]
fn test_cli_help_generation() {
    let help_str = help_text();

    // The CLI description text is "A CLI tool for tracking time spent on tasks"
    assert!(help_str.contains("CLI tool for tracking"));
    assert!(help_str.contains("start"));
    assert!(help_str.contains("pause"));
    assert!(help_str.contains("resume"));
}

#[test]
fn test_start_command_requires_label() {
    let args = args_of(&["task-timer", "start"]);
    let result = parse_args(&args);

    assert!(result.is_err());
}

#[test]
fn test_start_command_with_multi_word_label() {
    let args = args_of(&["task-timer", "start", "My", "Complex", "Task", "Name"]);
    let result = parse_args(&args);

    // This should fail because the grammar expects a single argument
    // for the label. The label would need quoting: "My Complex Task Name".
    assert!(result.is_err());
}

#[test]
fn test_start_command_with_quoted_label() {
    let args = args_of(&["task-timer", "start", "My Complex Task Name"]);
    let command = parse_args(&args).unwrap();

    match command {
        Commands::Start { label } => {
            assert_eq!(label, "My Complex Task Name");
        },
        _ => panic!("Expected Start command"),
    }
}

#[test]
fn test_command_names() {
    assert_eq!(
        Commands::Start { label: "test".to_string() }.name(),
        "start"
    );
    assert_eq!(Commands::Pause.name(), "pause");
    assert_eq!(Commands::Resume.name(), "resume");
    assert_eq!(Commands::Status.name(), "status");
    assert_eq!(Commands::List.name(), "list");
    assert_eq!(Commands::Complete.name(), "complete");
}
