//! Read-only rendering of tasks and managers into human-readable
//! strings: durations, statuses, per-task lines and the aggregate
//! summary.

use vstd::prelude::*;

use crate::manager::{spec_completed_count, ManagerView};
use crate::numbers::{dec_rep, u64_to_string, usize_to_string};
use crate::task::{spec_total_duration, Task, TaskStatus, TaskView};
use crate::time::now_millis;

verus! {

/// What a rendered timestamp reads: the text chrono produces for the
/// given milliseconds-since-epoch value under "%Y-%m-%d %H:%M:%S UTC".
pub uninterp spec fn timestamp_text(t: int) -> Seq<char>;

/// Relies on chrono's `DateTime::from_timestamp_millis` and `format`:
/// renders a timestamp under "%Y-%m-%d %H:%M:%S UTC". The result is a
/// function of the timestamp alone; one outside chrono's supported
/// range renders as the empty string.
#[verifier::external_body]
pub(crate) fn format_timestamp(t: i64) -> (r: String)
    ensures
        r@ == timestamp_text(t as int),
{
    match chrono::DateTime::from_timestamp_millis(t) {
        Some(dt) => dt.format("%Y-%m-%d %H:%M:%S UTC").to_string(),
        None => String::new(),
    }
}

/// The rendering of a duration given in whole seconds: hours, minutes
/// and seconds, omitting leading zero parts.
pub open spec fn spec_format_seconds(total_seconds: int) -> Seq<char> {
    let hours = total_seconds / 3600;
    let minutes = (total_seconds % 3600) / 60;
    let seconds = total_seconds % 60;
    if hours > 0 {
        dec_rep(hours) + "h "@ + dec_rep(minutes) + "m "@ + dec_rep(seconds) + "s"@
    } else if minutes > 0 {
        dec_rep(minutes) + "m "@ + dec_rep(seconds) + "s"@
    } else {
        dec_rep(seconds) + "s"@
    }
}

/// Formats a duration, given in milliseconds, as a human-readable
/// string such as "1h 2m 3s", "2m 5s" or "45s".
pub fn format_duration(duration_millis: u64) -> (r: String)
    ensures
        r@ == spec_format_seconds(duration_millis as int / 1000),
{
    let total_seconds = duration_millis / 1000;
    let hours = total_seconds / 3600;
    let minutes = (total_seconds % 3600) / 60;
    let seconds = total_seconds % 60;
    if hours > 0 {
        let mut r = u64_to_string(hours);
        r.append("h ");
        let m = u64_to_string(minutes);
        r.append(m.as_str());
        r.append("m ");
        let s = u64_to_string(seconds);
        r.append(s.as_str());
        r.append("s");
        r
    } else if minutes > 0 {
        let mut r = u64_to_string(minutes);
        r.append("m ");
        let s = u64_to_string(seconds);
        r.append(s.as_str());
        r.append("s");
        r
    } else {
        let mut r = u64_to_string(seconds);
        r.append("s");
        r
    }
}

/// The short label of each status.
pub open spec fn spec_format_status(status: TaskStatus) -> Seq<char> {
    match status {
        TaskStatus::Running => "🏃 Running"@,
        TaskStatus::Paused => "⏸️  Paused"@,
        TaskStatus::Completed => "✅ Completed"@,
    }
}

/// Formats a task status with its symbol.
pub fn format_status(status: &TaskStatus) -> (r: String)
    ensures
        r@ == spec_format_status(*status),
{
    match status {
        TaskStatus::Running => String::from_str("🏃 Running"),
        TaskStatus::Paused => String::from_str("⏸️  Paused"),
        TaskStatus::Completed => String::from_str("✅ Completed"),
    }
}

/// An optional index, as a mathematical integer.
pub open spec fn opt_index_view(index: Option<usize>) -> Option<int> {
    match index {
        Some(i) => Some(i as int),
        None => None,
    }
}

/// The rendering of one task line at clock reading `now`, with an
/// optional 1-based position prefix.
pub open spec fn spec_display_task(t: TaskView, index: Option<int>, now: int) -> Seq<char> {
    let prefix = match index {
        Some(i) => dec_rep(i + 1) + ". "@,
        None => Seq::<char>::empty(),
    };
    prefix + t.label + " ["@ + spec_format_status(t.status) + "] - "@ + spec_format_seconds(
        spec_total_duration(t, now) / 1000,
    ) + " (Created: "@ + timestamp_text(t.created_at) + ")"@
}

/// Renders a single task at clock reading `now`.
pub fn display_task_at(task: &Task, index: Option<usize>, now: i64) -> (r: String)
    requires
        index matches Some(i) ==> i < usize::MAX,
    ensures
        r@ == spec_display_task(task@, opt_index_view(index), now as int),
{
    let mut r = match index {
        Some(i) => {
            let mut p = usize_to_string(i + 1);
            p.append(". ");
            p
        },
        None => String::new(),
    };
    r.append(task.label.as_str());
    r.append(" [");
    let status = format_status(&task.status);
    r.append(status.as_str());
    r.append("] - ");
    let duration = format_duration(task.total_duration_at(now));
    r.append(duration.as_str());
    r.append(" (Created: ");
    let created = format_timestamp(task.created_at);
    r.append(created.as_str());
    r.append(")");
    r
}

/// Renders a single task at the current wall-clock time.
pub fn display_task(task: &Task, index: Option<usize>) -> (r: String)
    requires
        index matches Some(i) ==> i < usize::MAX,
    ensures
        exists|now: int| #[trigger] spec_display_task(task@, opt_index_view(index), now) == r@,
{
    let now: i64 = now_millis();
    let r = display_task_at(task, index, now);
    proof {
        assert(spec_display_task(task@, opt_index_view(index), now as int) == r@);
    }
    r
}

/// An optional task reference, as its model.
pub open spec fn opt_task_view(task: Option<&Task>) -> Option<TaskView> {
    match task {
        Some(t) => Some(t@),
        None => None,
    }
}

/// The rendering of the current-task line at clock reading `now`.
pub open spec fn spec_display_current_status(task: Option<TaskView>, now: int) -> Seq<char> {
    match task {
        Some(t) => "Current Task: "@ + t.label + " ["@ + spec_format_status(t.status) + "] - "@
            + spec_format_seconds(spec_total_duration(t, now) / 1000),
        None => "No active task"@,
    }
}

/// Renders the current task's status line at clock reading `now`.
pub fn display_current_status_at(task: Option<&Task>, now: i64) -> (r: String)
    ensures
        r@ == spec_display_current_status(opt_task_view(task), now as int),
{
    match task {
        Some(task) => {
            let mut r = String::from_str("Current Task: ");
            r.append(task.label.as_str());
            r.append(" [");
            let status = format_status(&task.status);
            r.append(status.as_str());
            r.append("] - ");
            let duration = format_duration(task.total_duration_at(now));
            r.append(duration.as_str());
            r
        },
        None => String::from_str("No active task"),
    }
}

/// Renders the current task's status line at the current wall-clock
/// time.
pub fn display_current_status(task: Option<&Task>) -> (r: String)
    ensures
        exists|now: int| #[trigger] spec_display_current_status(opt_task_view(task), now) == r@,
{
    let now: i64 = now_millis();
    let r = display_current_status_at(task, now);
    proof {
        assert(spec_display_current_status(opt_task_view(task), now as int) == r@);
    }
    r
}

/// The total duration of a list of tasks at clock reading `now`,
/// saturating at the largest representable value.
pub open spec fn spec_total_of(tasks: Seq<TaskView>, now: int) -> int
    decreases tasks.len(),
{
    if tasks.len() == 0 {
        0
    } else {
        let rest = spec_total_of(tasks.drop_last(), now);
        let last = spec_total_duration(tasks.last(), now);
        if rest + last > u64::MAX {
            u64::MAX as int
        } else {
            rest + last
        }
    }
}

/// How many tasks are running.
pub open spec fn spec_running_count(s: Seq<TaskView>) -> int
    decreases s.len(),
{
    if s.len() == 0 {
        0
    } else {
        spec_running_count(s.drop_last()) + if s.last().status is Running {
            1int
        } else {
            0int
        }
    }
}

/// How many tasks are paused.
pub open spec fn spec_paused_count(s: Seq<TaskView>) -> int
    decreases s.len(),
{
    if s.len() == 0 {
        0
    } else {
        spec_paused_count(s.drop_last()) + if s.last().status is Paused {
            1int
        } else {
            0int
        }
    }
}

/// The first `n` task lines of the summary, each on its own line.
pub open spec fn spec_task_lines(tasks: Seq<TaskView>, now: int, n: int) -> Seq<char>
    decreases n,
{
    if n <= 0 {
        Seq::empty()
    } else {
        spec_task_lines(tasks, now, n - 1) + spec_display_task(tasks[n - 1], Some(n - 1), now)
            + "\n"@
    }
}

/// The separator bar of the summary.
pub open spec fn spec_summary_bar() -> Seq<char> {
    "========================================"@
}

/// The rendering of the whole task summary at clock reading `now`.
pub open spec fn spec_display_summary(tasks: Seq<TaskView>, now: int) -> Seq<char> {
    if tasks.len() == 0 {
        "No tasks found"@
    } else {
        "Task Summary ("@ + dec_rep(tasks.len() as int) + " tasks):\n"@ + spec_summary_bar()
            + "\n"@ + spec_task_lines(tasks, now, tasks.len() as int) + "\n"@ + spec_summary_bar()
            + "\n"@ + "Total Time: "@ + spec_format_seconds(spec_total_of(tasks, now) / 1000)
            + "\n"@ + "Running: "@ + dec_rep(spec_running_count(tasks)) + " | Paused: "@ + dec_rep(
            spec_paused_count(tasks),
        ) + " | Completed: "@ + dec_rep(spec_completed_count(tasks))
    }
}

/// Renders a summary of all tasks at clock reading `now`: a numbered
/// line per task, then totals and counts by status.
pub fn display_task_summary_at(tasks: &Vec<Task>, now: i64) -> (r: String)
    ensures
        r@ == spec_display_summary(tasks.deep_view(), now as int),
{
    let ghost tv = tasks.deep_view();
    if tasks.is_empty() {
        return String::from_str("No tasks found");
    }
    let len = tasks.len();
    let mut output = String::from_str("Task Summary (");
    let count_text = usize_to_string(len);
    output.append(count_text.as_str());
    output.append(" tasks):\n");
    output.append("========================================");
    output.append("\n");

    let mut total: u64 = 0;
    let mut running_count: usize = 0;
    let mut paused_count: usize = 0;
    let mut completed_count: usize = 0;
    let mut i: usize = 0;
    while i < len
        invariant
            0 <= i <= len,
            len == tv.len(),
            tasks.deep_view() == tv,
            output@ == "Task Summary ("@ + dec_rep(len as int) + " tasks):\n"@ + spec_summary_bar()
                + "\n"@ + spec_task_lines(tv, now as int, i as int),
            total == spec_total_of(tv.take(i as int), now as int),
            running_count == spec_running_count(tv.take(i as int)),
            paused_count == spec_paused_count(tv.take(i as int)),
            completed_count == spec_completed_count(tv.take(i as int)),
            running_count <= i && paused_count <= i && completed_count <= i,
        decreases len - i,
    {
        proof {
            assert(tv.take(i as int + 1).drop_last() =~= tv.take(i as int));
            assert(tv.take(i as int + 1).last() == tv[i as int]);
        }
        let line = display_task_at(&tasks[i], Some(i), now);
        output.append(line.as_str());
        output.append("\n");
        let d = tasks[i].total_duration_at(now);
        if d <= u64::MAX - total {
            total = total + d;
        } else {
            total = u64::MAX;
        }
        if tasks[i].is_running() {
            running_count = running_count + 1;
        }
        if tasks[i].is_paused() {
            paused_count = paused_count + 1;
        }
        if tasks[i].is_completed() {
            completed_count = completed_count + 1;
        }
        i = i + 1;
    }
    proof {
        assert(tv.take(len as int) =~= tv);
    }
    output.append("\n");
    output.append("========================================");
    output.append("\n");
    output.append("Total Time: ");
    let total_text = format_duration(total);
    output.append(total_text.as_str());
    output.append("\n");
    output.append("Running: ");
    let rc = usize_to_string(running_count);
    output.append(rc.as_str());
    output.append(" | Paused: ");
    let pc = usize_to_string(paused_count);
    output.append(pc.as_str());
    output.append(" | Completed: ");
    let cc = usize_to_string(completed_count);
    output.append(cc.as_str());
    output
}

/// Renders a summary of all tasks at the current wall-clock time.
pub fn display_task_summary(tasks: &Vec<Task>) -> (r: String)
    ensures
        exists|now: int| #[trigger] spec_display_summary(tasks.deep_view(), now) == r@,
{
    let now: i64 = now_millis();
    let r = display_task_summary_at(tasks, now);
    proof {
        assert(spec_display_summary(tasks.deep_view(), now as int) == r@);
    }
    r
}

} // verus!
