//! A single tracked task: a three-state lifecycle (running, paused,
//! completed) with duration accounting.
//!
//! Times are milliseconds since the Unix epoch (`i64`); durations are
//! milliseconds (`u64`). Every transition exists in two forms: a pure
//! one that takes the clock reading as an argument and is specified
//! exactly, and a convenience form that reads the wall clock and
//! delegates to it.

use vstd::prelude::*;

use crate::errors::TaskError;
use crate::time::now_millis;

verus! {

/// The current status of a task.
#[derive(Debug, Clone, Copy, PartialEq, Eq, Structural)]
pub enum TaskStatus {
    /// Task is currently running and timing.
    Running,
    /// Task has been paused, time accumulation stopped.
    Paused,
    /// Task has been completed.
    Completed,
}

/// The mathematical model of a [`Task`].
pub struct TaskView {
    /// The label, as a sequence of characters.
    pub label: Seq<char>,
    /// Current status.
    pub status: TaskStatus,
    /// Creation time, milliseconds since the epoch.
    pub created_at: int,
    /// Start of the current timing session, when running.
    pub started_at: Option<int>,
    /// Milliseconds accrued over all finished sessions.
    pub accumulated_duration: int,
}

impl TaskView {
    /// A task records a session start time exactly while it is running.
    pub open spec fn wf(self) -> bool {
        self.started_at is Some <==> self.status is Running
    }
}

/// A single task with timing information.
#[derive(Debug)]
pub struct Task {
    /// User-provided label for the task.
    pub label: String,
    /// Current status of the task.
    pub status: TaskStatus,
    /// When the task was initially created (ms since the epoch).
    pub created_at: i64,
    /// When the task was last started, for the current session.
    pub started_at: Option<i64>,
    /// Accumulated milliseconds from all previous sessions.
    pub accumulated_duration: u64,
}

impl View for Task {
    type V = TaskView;

    open spec fn view(&self) -> TaskView {
        TaskView {
            label: self.label@,
            status: self.status,
            created_at: self.created_at as int,
            started_at: match self.started_at {
                Some(s) => Some(s as int),
                None => None,
            },
            accumulated_duration: self.accumulated_duration as int,
        }
    }
}

impl DeepView for Task {
    type V = TaskView;

    open spec fn deep_view(&self) -> TaskView {
        self.view()
    }
}

impl Clone for Task {
    fn clone(&self) -> (r: Self)
        ensures
            r@ == self@,
    {
        Task {
            label: self.label.clone(),
            status: self.status,
            created_at: self.created_at,
            started_at: self.started_at,
            accumulated_duration: self.accumulated_duration,
        }
    }
}

/// Milliseconds elapsed from `started` to `now`, or `None` when the
/// clock reads earlier than the session start.
pub open spec fn spec_elapsed(started: int, now: int) -> Option<u64> {
    if now < started {
        None
    } else {
        Some((now - started) as u64)
    }
}

/// Computes the elapsed time of a session; fails exactly when the
/// clock went backward past the session start.
pub fn elapsed_millis(started: i64, now: i64) -> (r: Option<u64>)
    ensures
        r == spec_elapsed(started as int, now as int),
{
    if now < started {
        None
    } else {
        let d: i128 = now as i128 - started as i128;
        Some(d as u64)
    }
}

/// The legal-move table for pausing: the task after the attempt and
/// its outcome, given the clock reading.
pub open spec fn spec_pause(v: TaskView, now: int) -> (TaskView, Result<(), TaskError>) {
    match v.status {
        TaskStatus::Running => {
            if v.started_at is Some {
                let s = v.started_at.unwrap();
                if now < s || v.accumulated_duration + (now - s) > u64::MAX {
                    (v, Err(TaskError::InvalidDuration))
                } else {
                    (
                        TaskView {
                            status: TaskStatus::Paused,
                            started_at: None,
                            accumulated_duration: v.accumulated_duration + (now - s),
                            ..v
                        },
                        Ok(()),
                    )
                }
            } else {
                arbitrary()
            }
        },
        TaskStatus::Paused => (v, Err(TaskError::TaskAlreadyPaused)),
        TaskStatus::Completed => (v, Err(TaskError::TaskCompleted)),
    }
}

/// The legal-move table for resuming.
pub open spec fn spec_resume(v: TaskView, now: int) -> (TaskView, Result<(), TaskError>) {
    match v.status {
        TaskStatus::Paused => (
            TaskView { status: TaskStatus::Running, started_at: Some(now), ..v },
            Ok(()),
        ),
        TaskStatus::Running => (v, Err(TaskError::TaskAlreadyRunning)),
        TaskStatus::Completed => (v, Err(TaskError::TaskCompleted)),
    }
}

/// The legal-move table for completing: a running task folds in its
/// current session first; a paused one is marked directly.
pub open spec fn spec_complete(v: TaskView, now: int) -> (TaskView, Result<(), TaskError>) {
    match v.status {
        TaskStatus::Running => {
            let (paused, r) = spec_pause(v, now);
            if r is Ok {
                (TaskView { status: TaskStatus::Completed, ..paused }, Ok(()))
            } else {
                (paused, r)
            }
        },
        TaskStatus::Paused => (TaskView { status: TaskStatus::Completed, ..v }, Ok(())),
        TaskStatus::Completed => (v, Err(TaskError::TaskCompleted)),
    }
}

/// Total recorded duration at clock reading `now`: the accumulated
/// milliseconds, plus the live session when running. A live session
/// that cannot be computed counts as zero, and the sum saturates.
pub open spec fn spec_total_duration(v: TaskView, now: int) -> int {
    if v.status is Running && v.started_at is Some {
        let s = v.started_at.unwrap();
        let live: int = if now >= s { now - s } else { 0 };
        if v.accumulated_duration + live > u64::MAX {
            u64::MAX as int
        } else {
            v.accumulated_duration + live
        }
    } else {
        v.accumulated_duration
    }
}

impl Task {
    /// Creates a task begun at time `now`: running, with no accumulated
    /// duration, its creation and session start both at `now`.
    pub fn new_at(label: String, now: i64) -> (r: Task)
        ensures
            r@ == (TaskView {
                label: label@,
                status: TaskStatus::Running,
                created_at: now as int,
                started_at: Some(now as int),
                accumulated_duration: 0,
            }),
            r@.wf(),
    {
        Task {
            label,
            status: TaskStatus::Running,
            created_at: now,
            started_at: Some(now),
            accumulated_duration: 0,
        }
    }

    /// Creates a new task with the given label and starts it
    /// immediately, at the current wall-clock time.
    pub fn new(label: String) -> (r: Task)
        ensures
            r@.wf(),
            r@.label == label@,
            r@.status is Running,
            r@.accumulated_duration == 0,
            r@.started_at == Some(r@.created_at),
    {
        let now: i64 = now_millis();
        Task::new_at(label, now)
    }

    /// Pauses the task at clock reading `now`, folding the elapsed
    /// session into the accumulated duration. This is the only place
    /// elapsed time enters the running total.
    pub fn pause_at(&mut self, now: i64) -> (r: Result<(), TaskError>)
        requires
            old(self)@.wf(),
        ensures
            final(self)@.wf(),
            (final(self)@, r) == spec_pause(old(self)@, now as int),
    {
        match self.status {
            TaskStatus::Running => {
                if let Some(started) = self.started_at {
                    match elapsed_millis(started, now) {
                        Some(e) => {
                            if e <= u64::MAX - self.accumulated_duration {
                                self.accumulated_duration = self.accumulated_duration + e;
                                self.status = TaskStatus::Paused;
                                self.started_at = None;
                                Ok(())
                            } else {
                                Err(TaskError::InvalidDuration)
                            }
                        },
                        None => Err(TaskError::InvalidDuration),
                    }
                } else {
                    Err(TaskError::InvalidState {
                        message: "Task is running but has no start time".to_owned(),
                    })
                }
            },
            TaskStatus::Paused => Err(TaskError::TaskAlreadyPaused),
            TaskStatus::Completed => Err(TaskError::TaskCompleted),
        }
    }

    /// Pauses the task at the current wall-clock time.
    pub fn pause(&mut self) -> (r: Result<(), TaskError>)
        requires
            old(self)@.wf(),
        ensures
            final(self)@.wf(),
            exists|now: int| #[trigger] spec_pause(old(self)@, now) == (final(self)@, r),
    {
        let now: i64 = now_millis();
        let r = self.pause_at(now);
        proof {
            assert(spec_pause(old(self)@, now as int) == (self@, r));
        }
        r
    }

    /// Resumes a paused task at clock reading `now`.
    pub fn resume_at(&mut self, now: i64) -> (r: Result<(), TaskError>)
        requires
            old(self)@.wf(),
        ensures
            final(self)@.wf(),
            (final(self)@, r) == spec_resume(old(self)@, now as int),
    {
        match self.status {
            TaskStatus::Paused => {
                self.status = TaskStatus::Running;
                self.started_at = Some(now);
                Ok(())
            },
            TaskStatus::Running => Err(TaskError::TaskAlreadyRunning),
            TaskStatus::Completed => Err(TaskError::TaskCompleted),
        }
    }

    /// Resumes a paused task at the current wall-clock time.
    pub fn resume(&mut self) -> (r: Result<(), TaskError>)
        requires
            old(self)@.wf(),
        ensures
            final(self)@.wf(),
            exists|now: int| #[trigger] spec_resume(old(self)@, now) == (final(self)@, r),
    {
        let now: i64 = now_millis();
        let r = self.resume_at(now);
        proof {
            assert(spec_resume(old(self)@, now as int) == (self@, r));
        }
        r
    }

    /// Completes the task at clock reading `now`, finalizing its total
    /// duration. This is a one-way transition.
    pub fn complete_at(&mut self, now: i64) -> (r: Result<(), TaskError>)
        requires
            old(self)@.wf(),
        ensures
            final(self)@.wf(),
            (final(self)@, r) == spec_complete(old(self)@, now as int),
    {
        match self.status {
            TaskStatus::Running => {
                let r = self.pause_at(now);
                if r.is_ok() {
                    self.status = TaskStatus::Completed;
                    Ok(())
                } else {
                    r
                }
            },
            TaskStatus::Paused => {
                self.status = TaskStatus::Completed;
                Ok(())
            },
            TaskStatus::Completed => Err(TaskError::TaskCompleted),
        }
    }

    /// Completes the task at the current wall-clock time.
    pub fn complete(&mut self) -> (r: Result<(), TaskError>)
        requires
            old(self)@.wf(),
        ensures
            final(self)@.wf(),
            exists|now: int| #[trigger] spec_complete(old(self)@, now) == (final(self)@, r),
    {
        let now: i64 = now_millis();
        let r = self.complete_at(now);
        proof {
            assert(spec_complete(old(self)@, now as int) == (self@, r));
        }
        r
    }

    /// Total duration at clock reading `now`, including the live
    /// session when running.
    pub fn total_duration_at(&self, now: i64) -> (r: u64)
        ensures
            r == spec_total_duration(self@, now as int),
    {
        let mut total: u64 = self.accumulated_duration;
        if let (TaskStatus::Running, Some(started)) = (&self.status, self.started_at) {
            let live: u64 = match elapsed_millis(started, now) {
                Some(e) => e,
                None => 0,
            };
            if live <= u64::MAX - total {
                total = total + live;
            } else {
                total = u64::MAX;
            }
        }
        total
    }

    /// Total duration at the current wall-clock time.
    pub fn total_duration(&self) -> (r: u64)
        ensures
            exists|now: int| #[trigger] spec_total_duration(self@, now) == r,
    {
        let now: i64 = now_millis();
        let r = self.total_duration_at(now);
        proof {
            assert(spec_total_duration(self@, now as int) == r);
        }
        r
    }

    /// Returns true if the task is currently running.
    pub fn is_running(&self) -> (r: bool)
        ensures
            r == (self@.status is Running),
    {
        matches!(self.status, TaskStatus::Running)
    }

    /// Returns true if the task is currently paused.
    pub fn is_paused(&self) -> (r: bool)
        ensures
            r == (self@.status is Paused),
    {
        matches!(self.status, TaskStatus::Paused)
    }

    /// Returns true if the task is completed.
    pub fn is_completed(&self) -> (r: bool)
        ensures
            r == (self@.status is Completed),
    {
        matches!(self.status, TaskStatus::Completed)
    }
}

/// While a task runs, its total duration never decreases as the clock
/// advances.
pub proof fn lemma_total_duration_monotonic(v: TaskView, n1: int, n2: int)
    requires
        n1 <= n2,
    ensures
        spec_total_duration(v, n1) <= spec_total_duration(v, n2),
{
}

/// A task that is not running reads the same total duration at every
/// clock value: pausing or completing freezes it.
pub proof fn lemma_total_duration_frozen(v: TaskView, n1: int, n2: int)
    requires
        !(v.status is Running),
    ensures
        spec_total_duration(v, n1) == spec_total_duration(v, n2),
        spec_total_duration(v, n1) == v.accumulated_duration,
{
}

} // verus!
