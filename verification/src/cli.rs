//! The command-line surface: the set of commands, their names, the
//! help text, and a verified parser for the argument grammar.

use vstd::prelude::*;

use crate::numbers::{all_digits, dec_val, parse_usize};
use crate::strutil::str_eq;

verus! {

/// A parsed command-line invocation.
#[derive(Debug, Clone)]
pub enum Commands {
    /// Start a new task with a label.
    Start { label: String },
    /// Pause the currently running task.
    Pause,
    /// Resume the currently paused task.
    Resume,
    /// Show the current task status.
    Status,
    /// List all tasks and their durations.
    List,
    /// Complete the current task.
    Complete,
    /// Delete a task by index, or all completed tasks.
    Delete { index: Option<usize>, completed: bool },
    /// Rename a task by index.
    Rename { index: usize, new_label: String },
}

/// The mathematical model of a command.
pub enum CommandModel {
    Start { label: Seq<char> },
    Pause,
    Resume,
    Status,
    List,
    Complete,
    Delete { index: Option<int>, completed: bool },
    Rename { index: int, new_label: Seq<char> },
}

/// The model of a parsed command.
pub open spec fn commands_view(c: Commands) -> CommandModel {
    match c {
        Commands::Start { label } => CommandModel::Start { label: label@ },
        Commands::Pause => CommandModel::Pause,
        Commands::Resume => CommandModel::Resume,
        Commands::Status => CommandModel::Status,
        Commands::List => CommandModel::List,
        Commands::Complete => CommandModel::Complete,
        Commands::Delete { index, completed } => CommandModel::Delete {
            index: match index {
                Some(i) => Some(i as int),
                None => None,
            },
            completed,
        },
        Commands::Rename { index, new_label } => CommandModel::Rename {
            index: index as int,
            new_label: new_label@,
        },
    }
}

/// The name of each command.
pub open spec fn spec_command_name(c: Commands) -> Seq<char> {
    match c {
        Commands::Start { .. } => "start"@,
        Commands::Pause => "pause"@,
        Commands::Resume => "resume"@,
        Commands::Status => "status"@,
        Commands::List => "list"@,
        Commands::Complete => "complete"@,
        Commands::Delete { .. } => "delete"@,
        Commands::Rename { .. } => "rename"@,
    }
}

impl Commands {
    /// The name of this command.
    pub fn name(&self) -> (r: &'static str)
        ensures
            r@ == spec_command_name(*self),
    {
        match self {
            Commands::Start { .. } => "start",
            Commands::Pause => "pause",
            Commands::Resume => "resume",
            Commands::Status => "status",
            Commands::List => "list",
            Commands::Complete => "complete",
            Commands::Delete { .. } => "delete",
            Commands::Rename { .. } => "rename",
        }
    }
}

/// The help text of the tool.
pub open spec fn spec_help_text() -> Seq<char> {
    "A CLI tool for tracking time spent on tasks\n\nUsage: task-timer <COMMAND>\n\nCommands:\n  start     Start a new task with a label [aliases: s]\n  pause     Pause the currently running task [aliases: p]\n  resume    Resume the currently paused task [aliases: r]\n  status    Show the current task status\n  list      List all tasks and their durations [aliases: l]\n  complete  Complete the current task [aliases: c]\n  delete    Delete a task by index or all completed tasks [aliases: d]\n  rename    Rename a task by index [aliases: e]\n"@
}

/// The help text of the tool.
pub fn help_text() -> (r: String)
    ensures
        r@ == spec_help_text(),
{
    String::from_str(
        "A CLI tool for tracking time spent on tasks\n\nUsage: task-timer <COMMAND>\n\nCommands:\n  start     Start a new task with a label [aliases: s]\n  pause     Pause the currently running task [aliases: p]\n  resume    Resume the currently paused task [aliases: r]\n  status    Show the current task status\n  list      List all tasks and their durations [aliases: l]\n  complete  Complete the current task [aliases: c]\n  delete    Delete a task by index or all completed tasks [aliases: d]\n  rename    Rename a task by index [aliases: e]\n",
    )
}

/// Whether a word denotes a valid task index on the command line: a
/// non-empty string of digits whose value fits the machine.
pub open spec fn spec_index_word(w: Seq<char>) -> bool {
    w.len() > 0 && all_digits(w) && dec_val(w) <= usize::MAX
}

/// The arguments of the delete command, from position `i` on: an
/// optional index and an optional `--completed` flag, in any order.
pub open spec fn spec_parse_delete(
    args: Seq<Seq<char>>,
    i: int,
    index: Option<int>,
    completed: bool,
) -> Option<CommandModel>
    decreases args.len() - i,
{
    if i >= args.len() {
        Some(CommandModel::Delete { index, completed })
    } else if args[i] == "--completed"@ {
        if completed {
            None
        } else {
            spec_parse_delete(args, i + 1, index, true)
        }
    } else if spec_index_word(args[i]) && index is None {
        spec_parse_delete(args, i + 1, Some(dec_val(args[i])), completed)
    } else {
        None
    }
}

/// What a command-line invocation parses to, if anything: the word
/// after the program name picks the command, long names and one-letter
/// aliases alike, and the remaining words must fit its arguments.
pub open spec fn spec_parse_args(args: Seq<Seq<char>>) -> Option<CommandModel> {
    if args.len() < 2 {
        None
    } else {
        let sub = args[1];
        if sub == "start"@ || sub == "s"@ {
            if args.len() == 3 {
                Some(CommandModel::Start { label: args[2] })
            } else {
                None
            }
        } else if sub == "pause"@ || sub == "p"@ {
            if args.len() == 2 {
                Some(CommandModel::Pause)
            } else {
                None
            }
        } else if sub == "resume"@ || sub == "r"@ {
            if args.len() == 2 {
                Some(CommandModel::Resume)
            } else {
                None
            }
        } else if sub == "status"@ {
            if args.len() == 2 {
                Some(CommandModel::Status)
            } else {
                None
            }
        } else if sub == "list"@ || sub == "l"@ {
            if args.len() == 2 {
                Some(CommandModel::List)
            } else {
                None
            }
        } else if sub == "complete"@ || sub == "c"@ {
            if args.len() == 2 {
                Some(CommandModel::Complete)
            } else {
                None
            }
        } else if sub == "delete"@ || sub == "d"@ {
            spec_parse_delete(args, 2, None, false)
        } else if sub == "rename"@ || sub == "e"@ {
            if args.len() == 4 && spec_index_word(args[2]) {
                Some(CommandModel::Rename { index: dec_val(args[2]), new_label: args[3] })
            } else {
                None
            }
        } else {
            None
        }
    }
}

/// Parses a command-line invocation (program name first). Returns the
/// command exactly when the words fit the grammar; otherwise the help
/// text, as the error message.
pub fn parse_args(args: &Vec<String>) -> (r: Result<Commands, String>)
    ensures
        match r {
            Ok(c) => spec_parse_args(args.deep_view()) == Some(commands_view(c)),
            Err(m) => spec_parse_args(args.deep_view()) is None && m@ == spec_help_text(),
        },
{
    let ghost dv = args.deep_view();
    proof {
        assert(forall|k: int| 0 <= k < args@.len() ==> dv[k] == #[trigger] args@[k]@);
    }
    if args.len() < 2 {
        return Err(help_text());
    }
    let sub = args[1].as_str();
    assert(sub@ == dv[1]);
    if str_eq(sub, "start") || str_eq(sub, "s") {
        if args.len() == 3 {
            Ok(Commands::Start { label: args[2].clone() })
        } else {
            Err(help_text())
        }
    } else if str_eq(sub, "pause") || str_eq(sub, "p") {
        if args.len() == 2 {
            Ok(Commands::Pause)
        } else {
            Err(help_text())
        }
    } else if str_eq(sub, "resume") || str_eq(sub, "r") {
        if args.len() == 2 {
            Ok(Commands::Resume)
        } else {
            Err(help_text())
        }
    } else if str_eq(sub, "status") {
        if args.len() == 2 {
            Ok(Commands::Status)
        } else {
            Err(help_text())
        }
    } else if str_eq(sub, "list") || str_eq(sub, "l") {
        if args.len() == 2 {
            Ok(Commands::List)
        } else {
            Err(help_text())
        }
    } else if str_eq(sub, "complete") || str_eq(sub, "c") {
        if args.len() == 2 {
            Ok(Commands::Complete)
        } else {
            Err(help_text())
        }
    } else if str_eq(sub, "delete") || str_eq(sub, "d") {
        let mut index: Option<usize> = None;
        let mut completed = false;
        let mut i: usize = 2;
        let len = args.len();
        assert(spec_parse_args(dv) == spec_parse_delete(dv, 2, None, false));
        while i < len
            invariant
                2 <= i <= len,
                len == dv.len(),
                args.deep_view() == dv,
                spec_parse_args(dv) == spec_parse_delete(dv, 2, None, false),
                spec_parse_delete(dv, i as int, (match index {
                    Some(x) => Some(x as int),
                    None => None,
                }), completed) == spec_parse_delete(dv, 2, None, false),
            decreases len - i,
        {
            let word = args[i].as_str();
            assert(word@ == dv[i as int]);
            if str_eq(word, "--completed") {
                if completed {
                    return Err(help_text());
                }
                completed = true;
            } else {
                match parse_usize(word) {
                    Some(v) => {
                        if index.is_some() {
                            return Err(help_text());
                        }
                        index = Some(v);
                    },
                    None => {
                        return Err(help_text());
                    },
                }
            }
            i = i + 1;
        }
        Ok(Commands::Delete { index, completed })
    } else if str_eq(sub, "rename") || str_eq(sub, "e") {
        if args.len() == 4 {
            let word = args[2].as_str();
            assert(word@ == dv[2]);
            match parse_usize(word) {
                Some(v) => Ok(Commands::Rename { index: v, new_label: args[3].clone() }),
                None => Err(help_text()),
            }
        } else {
            Err(help_text())
        }
    } else {
        Err(help_text())
    }
}

} // verus!
