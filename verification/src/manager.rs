//! The task manager: an ordered list of tasks plus the index of the
//! single task currently in focus, with the lifecycle operations that
//! maintain the single-focus discipline.

use vstd::prelude::*;
use vstd::seq_lib::lemma_multiset_commutative;

use crate::errors::TaskError;
use crate::numbers::{dec_rep, usize_to_string};
use crate::strutil::{label_has_content, label_ok};
use crate::task::{spec_complete, spec_pause, spec_resume, Task, TaskStatus, TaskView};
use crate::time::now_millis;

verus! {

/// The retention cap: after a reload, at most this many tasks are kept.
pub const MAX_TASKS: usize = 10;

/// The mathematical model of a [`TaskManager`].
pub struct ManagerView {
    /// The tasks, in insertion order.
    pub tasks: Seq<TaskView>,
    /// The index of the task currently in focus, if any.
    pub active_task_index: Option<int>,
}

impl ManagerView {
    /// The active index, when present, denotes a task.
    pub open spec fn active_in_bounds(self) -> bool {
        match self.active_task_index {
            Some(a) => 0 <= a < self.tasks.len(),
            None => true,
        }
    }

    /// The active task, when present, is running or paused — never
    /// completed.
    pub open spec fn active_not_completed(self) -> bool {
        match self.active_task_index {
            Some(a) => 0 <= a < self.tasks.len() && !(self.tasks[a].status is Completed),
            None => true,
        }
    }

    /// Only the task in focus can be running: a task found running is
    /// the active task.
    pub open spec fn running_is_active(self) -> bool {
        forall|j: int|
            0 <= j < self.tasks.len() && (#[trigger] self.tasks[j]).status is Running
                ==> self.active_task_index == Some(j)
    }

    /// Every task records a session start exactly while running.
    pub open spec fn tasks_wf(self) -> bool {
        forall|i: int| 0 <= i < self.tasks.len() ==> (#[trigger] self.tasks[i]).wf()
    }

    /// The manager invariant, re-established by every operation.
    pub open spec fn wf(self) -> bool {
        self.tasks_wf() && self.active_not_completed() && self.running_is_active()
    }
}

/// Manages multiple tasks and enforces the single-focus discipline.
#[derive(Debug)]
pub struct TaskManager {
    /// List of all tasks.
    pub tasks: Vec<Task>,
    /// Index of the currently active (running or paused) task.
    pub active_task_index: Option<usize>,
}

impl View for TaskManager {
    type V = ManagerView;

    open spec fn view(&self) -> ManagerView {
        ManagerView {
            tasks: self.tasks.deep_view(),
            active_task_index: match self.active_task_index {
                Some(a) => Some(a as int),
                None => None,
            },
        }
    }
}

/// The index result of an operation, with the index as a mathematical
/// integer.
pub open spec fn index_result_view(r: Result<usize, TaskError>) -> Result<int, TaskError> {
    match r {
        Ok(i) => Ok(i as int),
        Err(e) => Err(e),
    }
}

/// The state and outcome of starting a new task at clock reading
/// `now`: a running previous task is paused first (propagating any
/// failure), then the new task is appended and becomes active.
pub open spec fn spec_start_task(m: ManagerView, label: Seq<char>, now: int) -> (
    ManagerView,
    Result<int, TaskError>,
) {
    let new_task = TaskView {
        label,
        status: TaskStatus::Running,
        created_at: now,
        started_at: Some(now),
        accumulated_duration: 0,
    };
    if m.active_task_index is Some && m.tasks[m.active_task_index.unwrap()].status is Running {
        let a = m.active_task_index.unwrap();
        let (pt, pr) = spec_pause(m.tasks[a], now);
        match pr {
            Err(e) => (ManagerView { tasks: m.tasks.update(a, pt), ..m }, Err(e)),
            Ok(_) => (
                ManagerView {
                    tasks: m.tasks.update(a, pt).push(new_task),
                    active_task_index: Some(m.tasks.len() as int),
                },
                Ok(m.tasks.len() as int),
            ),
        }
    } else {
        (
            ManagerView {
                tasks: m.tasks.push(new_task),
                active_task_index: Some(m.tasks.len() as int),
            },
            Ok(m.tasks.len() as int),
        )
    }
}

/// The state and outcome of pausing the task in focus.
pub open spec fn spec_pause_current(m: ManagerView, now: int) -> (
    ManagerView,
    Result<(), TaskError>,
) {
    match m.active_task_index {
        Some(a) => {
            let (t1, r) = spec_pause(m.tasks[a], now);
            (ManagerView { tasks: m.tasks.update(a, t1), ..m }, r)
        },
        None => (m, Err(TaskError::NoActiveTask)),
    }
}

/// The state and outcome of resuming the task in focus.
pub open spec fn spec_resume_current(m: ManagerView, now: int) -> (
    ManagerView,
    Result<(), TaskError>,
) {
    match m.active_task_index {
        Some(a) => {
            let (t1, r) = spec_resume(m.tasks[a], now);
            (ManagerView { tasks: m.tasks.update(a, t1), ..m }, r)
        },
        None => (m, Err(TaskError::NoActiveTask)),
    }
}

/// The state and outcome of completing the task in focus: on success
/// the focus is cleared, since a completed task is never active.
pub open spec fn spec_complete_current(m: ManagerView, now: int) -> (
    ManagerView,
    Result<(), TaskError>,
) {
    match m.active_task_index {
        Some(a) => {
            let (t1, r) = spec_complete(m.tasks[a], now);
            if r is Ok {
                (ManagerView { tasks: m.tasks.update(a, t1), active_task_index: None }, Ok(()))
            } else {
                (ManagerView { tasks: m.tasks.update(a, t1), ..m }, r)
            }
        },
        None => (m, Err(TaskError::NoActiveTask)),
    }
}

impl Default for TaskManager {
    /// An empty manager: no tasks, no task in focus.
    fn default() -> (r: Self)
        ensures
            r@.tasks.len() == 0,
            r@.active_task_index is None,
            r@.wf(),
    {
        TaskManager { tasks: Vec::new(), active_task_index: None }
    }
}

impl TaskManager {
    /// Creates a new empty task manager.
    pub fn new() -> (r: Self)
        ensures
            r@.tasks.len() == 0,
            r@.active_task_index is None,
            r@.wf(),
    {
        Self::default()
    }

    /// Starts a new task with the given label at clock reading `now`.
    /// If there is already a running task, it is paused first.
    pub fn start_task_at(&mut self, label: String, now: i64) -> (r: Result<usize, TaskError>)
        requires
            old(self)@.wf(),
        ensures
            final(self)@.wf(),
            ({
                let (mv, rv) = spec_start_task(old(self)@, label@, now as int);
                final(self)@ == mv && index_result_view(r) == rv
            }),
    {
        let needs_pause = match self.active_task_index {
            Some(index) => self.tasks[index].is_running(),
            None => false,
        };
        if needs_pause {
            let index = match self.active_task_index {
                Some(index) => index,
                None => 0,
            };
            let mut t = self.tasks.remove(index);
            let pr = t.pause_at(now);
            self.tasks.insert(index, t);
            proof {
                assert(self.tasks.deep_view() =~= old(self).tasks.deep_view().update(
                    index as int,
                    t@,
                ));
            }
            if let Err(e) = pr {
                return Err(e);
            }
        }
        let ghost pre = self@;
        let task = Task::new_at(label, now);
        self.tasks.push(task);
        let task_index = self.tasks.len() - 1;
        self.active_task_index = Some(task_index);
        proof {
            assert(self.tasks.deep_view() =~= pre.tasks.push(task@));
        }
        Ok(task_index)
    }

    /// Starts a new task with the given label at the current
    /// wall-clock time.
    pub fn start_task(&mut self, label: String) -> (r: Result<usize, TaskError>)
        requires
            old(self)@.wf(),
        ensures
            final(self)@.wf(),
            exists|now: int|
                #[trigger] spec_start_task(old(self)@, label@, now) == (
                    final(self)@,
                    index_result_view(r),
                ),
    {
        let now: i64 = now_millis();
        let ghost l = label@;
        let r = self.start_task_at(label, now);
        proof {
            assert(spec_start_task(old(self)@, l, now as int) == (self@, index_result_view(r)));
        }
        r
    }

    /// Pauses the currently active task at clock reading `now`.
    pub fn pause_current_task_at(&mut self, now: i64) -> (r: Result<(), TaskError>)
        requires
            old(self)@.wf(),
        ensures
            final(self)@.wf(),
            ({
                let (mv, rv) = spec_pause_current(old(self)@, now as int);
                final(self)@ == mv && r == rv
            }),
    {
        match self.active_task_index {
            Some(index) => {
                let mut t = self.tasks.remove(index);
                let r = t.pause_at(now);
                self.tasks.insert(index, t);
                proof {
                    assert(self.tasks.deep_view() =~= old(self).tasks.deep_view().update(
                        index as int,
                        t@,
                    ));
                }
                r
            },
            None => Err(TaskError::NoActiveTask),
        }
    }

    /// Pauses the currently active task.
    pub fn pause_current_task(&mut self) -> (r: Result<(), TaskError>)
        requires
            old(self)@.wf(),
        ensures
            final(self)@.wf(),
            exists|now: int|
                #[trigger] spec_pause_current(old(self)@, now) == (final(self)@, r),
    {
        let now: i64 = now_millis();
        let r = self.pause_current_task_at(now);
        proof {
            assert(spec_pause_current(old(self)@, now as int) == (self@, r));
        }
        r
    }

    /// Resumes the currently active task at clock reading `now`.
    pub fn resume_current_task_at(&mut self, now: i64) -> (r: Result<(), TaskError>)
        requires
            old(self)@.wf(),
        ensures
            final(self)@.wf(),
            ({
                let (mv, rv) = spec_resume_current(old(self)@, now as int);
                final(self)@ == mv && r == rv
            }),
    {
        match self.active_task_index {
            Some(index) => {
                let mut t = self.tasks.remove(index);
                let r = t.resume_at(now);
                self.tasks.insert(index, t);
                proof {
                    assert(self.tasks.deep_view() =~= old(self).tasks.deep_view().update(
                        index as int,
                        t@,
                    ));
                }
                r
            },
            None => Err(TaskError::NoActiveTask),
        }
    }

    /// Resumes the currently active task.
    pub fn resume_current_task(&mut self) -> (r: Result<(), TaskError>)
        requires
            old(self)@.wf(),
        ensures
            final(self)@.wf(),
            exists|now: int|
                #[trigger] spec_resume_current(old(self)@, now) == (final(self)@, r),
    {
        let now: i64 = now_millis();
        let r = self.resume_current_task_at(now);
        proof {
            assert(spec_resume_current(old(self)@, now as int) == (self@, r));
        }
        r
    }

    /// Completes the currently active task at clock reading `now` and
    /// clears the focus.
    pub fn complete_current_task_at(&mut self, now: i64) -> (r: Result<(), TaskError>)
        requires
            old(self)@.wf(),
        ensures
            final(self)@.wf(),
            ({
                let (mv, rv) = spec_complete_current(old(self)@, now as int);
                final(self)@ == mv && r == rv
            }),
    {
        match self.active_task_index {
            Some(index) => {
                let mut t = self.tasks.remove(index);
                let r = t.complete_at(now);
                self.tasks.insert(index, t);
                proof {
                    assert(self.tasks.deep_view() =~= old(self).tasks.deep_view().update(
                        index as int,
                        t@,
                    ));
                }
                if r.is_ok() {
                    self.active_task_index = None;
                }
                r
            },
            None => Err(TaskError::NoActiveTask),
        }
    }

    /// Completes the currently active task and clears the focus.
    pub fn complete_current_task(&mut self) -> (r: Result<(), TaskError>)
        requires
            old(self)@.wf(),
        ensures
            final(self)@.wf(),
            exists|now: int|
                #[trigger] spec_complete_current(old(self)@, now) == (final(self)@, r),
    {
        let now: i64 = now_millis();
        let r = self.complete_current_task_at(now);
        proof {
            assert(spec_complete_current(old(self)@, now as int) == (self@, r));
        }
        r
    }

    /// Gets a reference to the currently active task.
    pub fn current_task(&self) -> (r: Option<&Task>)
        requires
            self@.active_in_bounds(),
        ensures
            match self@.active_task_index {
                Some(a) => r matches Some(t) && t@ == self@.tasks[a],
                None => r is None,
            },
    {
        match self.active_task_index {
            Some(index) => Some(&self.tasks[index]),
            None => None,
        }
    }

    /// Gets all tasks, in insertion order.
    pub fn all_tasks(&self) -> (r: &Vec<Task>)
        ensures
            r.deep_view() == self@.tasks,
    {
        &self.tasks
    }

    /// Gets the number of tasks.
    pub fn task_count(&self) -> (r: usize)
        ensures
            r == self@.tasks.len(),
    {
        self.tasks.len()
    }

    /// Deletes a task by 1-based index. The task in focus cannot be
    /// deleted: it must be completed (or another task started) first.
    /// On success the focus index is re-aligned.
    pub fn delete_task(&mut self, index: usize) -> (r: Result<(), TaskError>)
        requires
            old(self)@.wf(),
        ensures
            final(self)@.wf(),
            index == 0 ==> final(self)@ == old(self)@ && (r matches Err(
                TaskError::InvalidState { message },
            ) && message@ == "Task index must be greater than 0"@),
            index > old(self)@.tasks.len() ==> final(self)@ == old(self)@ && (r matches Err(
                TaskError::InvalidState { message },
            ) && message@ == "Task index "@ + dec_rep(index as int)
                + " is out of bounds. Valid range: 1-"@ + dec_rep(old(self)@.tasks.len() as int)),
            1 <= index <= old(self)@.tasks.len() && old(self)@.active_task_index == Some(
                index - 1 as int,
            ) && old(self)@.tasks[index - 1 as int].status is Running ==> final(self)@ == old(
                self,
            )@ && (r matches Err(TaskError::InvalidState { message }) && message@
                == "Cannot delete task '"@ + old(self)@.tasks[index - 1 as int].label
                + "' - task is currently running. Please pause or complete it first."@),
            1 <= index <= old(self)@.tasks.len() && old(self)@.active_task_index == Some(
                index - 1 as int,
            ) && old(self)@.tasks[index - 1 as int].status is Paused ==> final(self)@ == old(
                self,
            )@ && (r matches Err(TaskError::InvalidState { message }) && message@
                == "Cannot delete task '"@ + old(self)@.tasks[index - 1 as int].label
                + "' - task is currently paused. Please resume and complete it, or complete it directly."@),
            1 <= index <= old(self)@.tasks.len() && old(self)@.active_task_index != Some(
                index - 1 as int,
            ) ==> r is Ok && final(self)@.tasks == old(self)@.tasks.remove(index - 1 as int)
                && final(self)@.active_task_index == (match old(self)@.active_task_index {
                Some(a) => if index - 1 < a {
                    Some((a - 1) as int)
                } else {
                    Some(a)
                },
                None => None,
            }),
    {
        if index == 0 {
            return Err(
                TaskError::InvalidState {
                    message: String::from_str("Task index must be greater than 0"),
                },
            );
        }
        let len = self.tasks.len();
        if index > len {
            let mut message = String::from_str("Task index ");
            let index_text = usize_to_string(index);
            message.append(index_text.as_str());
            message.append(" is out of bounds. Valid range: 1-");
            let len_text = usize_to_string(len);
            message.append(len_text.as_str());
            return Err(TaskError::InvalidState { message });
        }
        if self.tasks.is_empty() {
            return Err(
                TaskError::InvalidState {
                    message: String::from_str("No tasks available to delete"),
                },
            );
        }
        let task_index = index - 1;
        if let Some(active_idx) = self.active_task_index {
            if active_idx == task_index {
                let task = &self.tasks[task_index];
                if task.is_running() {
                    let mut message = String::from_str("Cannot delete task '");
                    message.append(task.label.as_str());
                    message.append(
                        "' - task is currently running. Please pause or complete it first.",
                    );
                    return Err(TaskError::InvalidState { message });
                }
                if task.is_paused() {
                    let mut message = String::from_str("Cannot delete task '");
                    message.append(task.label.as_str());
                    message.append(
                        "' - task is currently paused. Please resume and complete it, or complete it directly.",
                    );
                    return Err(TaskError::InvalidState { message });
                }
            }
        }
        self.tasks.remove(task_index);
        proof {
            assert(self.tasks.deep_view() =~= old(self).tasks.deep_view().remove(
                task_index as int,
            ));
        }
        if let Some(active_idx) = self.active_task_index {
            if task_index < active_idx {
                self.active_task_index = Some(active_idx - 1);
            } else if task_index == active_idx {
                self.active_task_index = None;
            }
        }
        Ok(())
    }

    /// Renames a task by 1-based index, returning the previous label.
    /// The new label must be non-empty after trimming whitespace;
    /// renaming is permitted whatever the task's status.
    pub fn rename_task(&mut self, index: usize, new_label: String) -> (r: Result<
        String,
        TaskError,
    >)
        requires
            old(self)@.wf(),
        ensures
            final(self)@.wf(),
            index == 0 ==> final(self)@ == old(self)@ && (r matches Err(
                TaskError::InvalidState { message },
            ) && message@ == "Task index must be greater than 0"@),
            index >= 1 && old(self)@.tasks.len() == 0 ==> final(self)@ == old(self)@ && (r matches
                Err(TaskError::InvalidState { message }) && message@
                == "No tasks available to rename"@),
            index > old(self)@.tasks.len() && old(self)@.tasks.len() > 0 ==> final(self)@ == old(
                self,
            )@ && (r matches Err(TaskError::InvalidState { message }) && message@
                == "Task index "@ + dec_rep(index as int) + " is out of bounds. Valid range: 1-"@
                + dec_rep(old(self)@.tasks.len() as int)),
            1 <= index <= old(self)@.tasks.len() && !label_ok(new_label@) ==> final(self)@ == old(
                self,
            )@ && (r matches Err(TaskError::InvalidLabel { message }) && message@
                == "Task label cannot be empty"@),
            1 <= index <= old(self)@.tasks.len() && label_ok(new_label@) ==> (r matches Ok(s) && s@
                == old(self)@.tasks[index - 1 as int].label) && final(self)@.tasks == old(
                self,
            )@.tasks.update(
                index - 1 as int,
                (TaskView { label: new_label@, ..old(self)@.tasks[index - 1 as int] }),
            ) && final(self)@.active_task_index == old(self)@.active_task_index,
    {
        if index == 0 {
            return Err(
                TaskError::InvalidState {
                    message: String::from_str("Task index must be greater than 0"),
                },
            );
        }
        let len = self.tasks.len();
        if len == 0 {
            return Err(
                TaskError::InvalidState { message: String::from_str("No tasks available to rename") },
            );
        }
        if index > len {
            let mut message = String::from_str("Task index ");
            let index_text = usize_to_string(index);
            message.append(index_text.as_str());
            message.append(" is out of bounds. Valid range: 1-");
            let len_text = usize_to_string(len);
            message.append(len_text.as_str());
            return Err(TaskError::InvalidState { message });
        }
        if !label_has_content(new_label.as_str()) {
            return Err(
                TaskError::InvalidLabel { message: String::from_str("Task label cannot be empty") },
            );
        }
        let task_index = index - 1;
        let mut t = self.tasks.remove(task_index);
        let old_label = t.label;
        t.label = new_label;
        self.tasks.insert(task_index, t);
        proof {
            assert(self.tasks.deep_view() =~= old(self).tasks.deep_view().update(
                task_index as int,
                (TaskView { label: t.label@, ..old(self)@.tasks[task_index as int] }),
            ));
        }
        Ok(old_label)
    }

    /// Deletes every completed task, preserving the order of the rest,
    /// and returns how many were removed. The focus index is shifted
    /// down by the number of removed tasks that preceded it.
    pub fn delete_completed_tasks(&mut self) -> (r: Result<usize, TaskError>)
        requires
            old(self)@.wf(),
        ensures
            final(self)@.wf(),
            final(self)@.tasks == spec_non_completed(old(self)@.tasks),
            r matches Ok(c) && c == spec_completed_count(old(self)@.tasks),
            final(self)@.active_task_index == (match old(self)@.active_task_index {
                Some(a) => Some(spec_non_completed(old(self)@.tasks.take(a)).len() as int),
                None => None,
            }),
    {
        let ghost o = self@;
        if self.tasks.is_empty() {
            proof {
                assert(spec_non_completed(o.tasks) =~= o.tasks);
            }
            return Ok(0);
        }
        let len = self.tasks.len();
        let mut completed_count: usize = 0;
        let mut i: usize = 0;
        while i < len
            invariant
                0 <= i <= len,
                len == o.tasks.len(),
                self@ == o,
                completed_count == spec_completed_count(o.tasks.take(i as int)),
                completed_count <= i,
            decreases len - i,
        {
            proof {
                assert(o.tasks.take(i as int + 1).drop_last() =~= o.tasks.take(i as int));
                assert(o.tasks.take(i as int + 1).last() == o.tasks[i as int]);
            }
            if self.tasks[i].is_completed() {
                completed_count = completed_count + 1;
            }
            i = i + 1;
        }
        proof {
            assert(o.tasks.take(len as int) =~= o.tasks);
        }
        if completed_count == 0 {
            proof {
                lemma_no_completed_id(o.tasks);
                if o.active_task_index is Some {
                    let a = o.active_task_index.unwrap();
                    lemma_completed_count_prefix(o.tasks, a);
                    lemma_completed_count_bounds(o.tasks.take(a));
                    lemma_no_completed_id(o.tasks.take(a));
                }
            }
            return Ok(0);
        }
        let mut kept: Vec<Task> = Vec::new();
        let mut new_active: Option<usize> = None;
        let mut j: usize = 0;
        while j < len
            invariant
                0 <= j <= len,
                len == o.tasks.len(),
                o.wf(),
                self@ == o,
                kept.deep_view() == spec_non_completed(o.tasks.take(j as int)),
                match o.active_task_index {
                    Some(a) => if j <= a {
                        new_active is None
                    } else {
                        new_active matches Some(n) && n == spec_non_completed(
                            o.tasks.take(a),
                        ).len() && n < kept.deep_view().len() && kept.deep_view()[n as int]
                            == o.tasks[a]
                    },
                    None => new_active is None,
                },
                forall|k: int|
                    0 <= k < kept.deep_view().len() ==> (#[trigger] kept.deep_view()[k]).wf()
                        && !(kept.deep_view()[k].status is Completed),
                forall|k: int|
                    0 <= k < kept.deep_view().len() && (#[trigger] kept.deep_view()[k]).status
                        is Running ==> (match o.active_task_index {
                        Some(a) => j > a && k == spec_non_completed(o.tasks.take(a)).len(),
                        None => false,
                    }),
            decreases len - j,
        {
            proof {
                assert(o.tasks.take(j as int + 1).drop_last() =~= o.tasks.take(j as int));
                assert(o.tasks.take(j as int + 1).last() == o.tasks[j as int]);
            }
            let is_active = match self.active_task_index {
                Some(a) => a == j,
                None => false,
            };
            if !self.tasks[j].is_completed() {
                if is_active {
                    new_active = Some(kept.len());
                }
                kept.push(self.tasks[j].clone());
                proof {
                    assert(kept.deep_view() =~= spec_non_completed(o.tasks.take(j as int)).push(
                        o.tasks[j as int],
                    ));
                }
            }
            j = j + 1;
        }
        proof {
            assert(o.tasks.take(len as int) =~= o.tasks);
        }
        if let Some(na) = new_active {
            if na >= kept.len() {
                // Defensive: cannot occur, since the active task is
                // never completed and is therefore kept.
                new_active = None;
            }
        }
        self.tasks = kept;
        self.active_task_index = new_active;
        Ok(completed_count)
    }

    /// Retention pass, run after every reload: when more than
    /// `MAX_TASKS` tasks are stored, keeps the task in focus and every
    /// non-completed task, and fills the remaining room with the most
    /// recently created completed tasks, discarding the oldest. Kept
    /// tasks come first, in their original order; surviving completed
    /// tasks follow, oldest first, and the focus index is re-aligned.
    pub fn cleanup_old_tasks(&mut self)
        ensures
            old(self)@.wf() ==> final(self)@.wf(),
            old(self)@.tasks.len() <= MAX_TASKS ==> final(self)@ == old(self)@,
            old(self)@.tasks.len() > MAX_TASKS ==> ({
                &&& exists|sorted: Seq<TaskView>|
                    #![trigger sorted.to_multiset()]
                    {
                        &&& sorted.to_multiset() == spec_completed_pool(old(self)@).to_multiset()
                        &&& sorted_by_created(sorted)
                        &&& final(self)@.tasks == spec_keepers(old(self)@) + sorted.skip(
                            spec_retention_drop_count(old(self)@),
                        )
                    }
                &&& final(self)@.active_task_index == spec_new_active(old(self)@)
                &&& (spec_keepers(old(self)@).len() <= MAX_TASKS ==> final(self)@.tasks.len()
                    <= MAX_TASKS)
            }),
    {
        if self.tasks.len() <= MAX_TASKS {
            return;
        }
        let ghost o = self@;
        let len = self.tasks.len();
        let mut keepers: Vec<Task> = Vec::new();
        let mut completed: Vec<Task> = Vec::new();
        let mut new_active: Option<usize> = None;
        let mut i: usize = 0;
        while i < len
            invariant
                0 <= i <= len,
                len == o.tasks.len(),
                self@ == o,
                keepers.deep_view() == spec_keepers_prefix(o, i as int),
                completed.deep_view() == spec_completed_pool_prefix(o, i as int),
                match o.active_task_index {
                    Some(a) => if i <= a {
                        new_active is None
                    } else {
                        new_active matches Some(n) && n == spec_keepers_prefix(o, a).len() && n
                            < keepers.deep_view().len() && keepers.deep_view()[n as int]
                            == o.tasks[a]
                    },
                    None => new_active is None,
                },
                o.wf() ==> forall|k: int|
                    0 <= k < keepers.deep_view().len() ==> (#[trigger] keepers.deep_view()[k]).wf(),
                o.wf() ==> forall|k: int|
                    0 <= k < keepers.deep_view().len() && (#[trigger] keepers.deep_view()[k]).status
                        is Running ==> (match o.active_task_index {
                        Some(a) => i > a && k == spec_keepers_prefix(o, a).len(),
                        None => false,
                    }),
                forall|k: int|
                    0 <= k < completed.deep_view().len() ==> (#[trigger] completed.deep_view()[
                    k]).status is Completed,
                o.wf() ==> forall|k: int|
                    0 <= k < completed.deep_view().len() ==> (#[trigger] completed.deep_view()[
                    k]).wf(),
            decreases len - i,
        {
            let is_active = match self.active_task_index {
                Some(a) => a == i,
                None => false,
            };
            if is_active || !self.tasks[i].is_completed() {
                if is_active {
                    new_active = Some(keepers.len());
                }
                keepers.push(self.tasks[i].clone());
                proof {
                    assert(spec_keep(o, i as int));
                    assert(keepers.deep_view() =~= spec_keepers_prefix(o, i as int).push(
                        o.tasks[i as int],
                    ));
                }
            } else {
                completed.push(self.tasks[i].clone());
                proof {
                    assert(!spec_keep(o, i as int));
                    assert(completed.deep_view() =~= spec_completed_pool_prefix(o, i as int).push(
                        o.tasks[i as int],
                    ));
                }
            }
            i = i + 1;
        }
        let ghost pool = spec_completed_pool(o);
        proof {
            assert(completed.deep_view() == pool);
            assert(keepers.deep_view() == spec_keepers(o));
            assert(forall|k: int|
                0 <= k < pool.len() ==> (#[trigger] pool[k]).status is Completed);
            assert(o.wf() ==> forall|k: int| 0 <= k < pool.len() ==> (#[trigger] pool[k]).wf());
        }
        sort_by_created_at(&mut completed);
        let ghost sorted_view = completed.deep_view();
        let keep_len = keepers.len();
        let remaining_slots: usize = if keep_len >= MAX_TASKS {
            0
        } else {
            MAX_TASKS - keep_len
        };
        let clen = completed.len();
        let drop_count: usize = if clen >= remaining_slots {
            clen - remaining_slots
        } else {
            0
        };
        proof {
            assert(drop_count as int == spec_retention_drop_count(o));
            assert(keepers.deep_view() =~= spec_keepers(o) + sorted_view.subrange(
                drop_count as int,
                drop_count as int,
            ));
        }
        let mut j: usize = drop_count;
        while j < clen
            invariant
                drop_count <= j <= clen,
                clen == sorted_view.len(),
                completed.deep_view() == sorted_view,
                keepers.deep_view() == spec_keepers(o) + sorted_view.subrange(
                    drop_count as int,
                    j as int,
                ),
            decreases clen - j,
        {
            let t = completed[j].clone();
            proof {
                assert(completed.deep_view()[j as int] == completed@[j as int]@);
                assert(t@ == sorted_view[j as int]);
            }
            let ghost prev_s = keepers@;
            let ghost prev_dv = keepers.deep_view();
            keepers.push(t);
            proof {
                let target = spec_keepers(o) + sorted_view.subrange(drop_count as int, j as int + 1);
                assert(prev_dv == spec_keepers(o) + sorted_view.subrange(
                    drop_count as int,
                    j as int,
                ));
                assert(prev_dv.len() == prev_s.len());
                assert(prev_dv.len() == spec_keepers(o).len() + (j - drop_count));
                assert(keepers@ == prev_s.push(t));
                assert(keepers.deep_view().len() == prev_s.len() + 1);
                assert(target.len() == keepers.deep_view().len());
                assert forall|k: int| 0 <= k < keepers.deep_view().len() implies keepers.deep_view()[k]
                    == target[k] by {
                    assert(keepers.deep_view()[k] == keepers@[k].deep_view());
                    if k < prev_s.len() {
                        assert(keepers@[k] == prev_s[k]);
                        assert(prev_dv[k] == prev_s[k].deep_view());
                    } else {
                        assert(keepers@[k] == t);
                    }
                }
                assert(keepers.deep_view() =~= target);
            }
            j = j + 1;
        }
        proof {
            assert(sorted_view.subrange(drop_count as int, clen as int) =~= sorted_view.skip(
                drop_count as int,
            ));
        }
        self.tasks = keepers;
        self.active_task_index = new_active;
        proof {
            let kp = spec_keepers(o);
            let tail = sorted_view.skip(drop_count as int);
            assert(self@.tasks == kp + tail);
            sorted_view.to_multiset_ensures();
            pool.to_multiset_ensures();
            assert forall|m: int| 0 <= m < sorted_view.len() implies (#[trigger] sorted_view[
            m]).status is Completed && (o.wf() ==> sorted_view[m].wf()) by {
                assert(sorted_view.contains(sorted_view[m]));
                assert(sorted_view.to_multiset().count(sorted_view[m]) > 0);
                assert(pool.to_multiset().count(sorted_view[m]) > 0);
                assert(pool.contains(sorted_view[m]));
                let idx = choose|idx: int| 0 <= idx < pool.len() && pool[idx] == sorted_view[m];
                assert(pool[idx].status is Completed);
            }
            if o.wf() {
                assert forall|m: int| 0 <= m < self@.tasks.len() implies (#[trigger] self@.tasks[
                m]).wf() by {
                    if m < kp.len() {
                        assert(self@.tasks[m] == kp[m]);
                    } else {
                        assert(self@.tasks[m] == tail[m - kp.len()]);
                        assert(tail[m - kp.len()] == sorted_view[m - kp.len() + drop_count]);
                    }
                }
                assert(self@.active_not_completed()) by {
                    match o.active_task_index {
                        Some(a) => {
                            assert(0 <= a < o.tasks.len());
                            assert(self@.active_task_index == Some(
                                spec_keepers_prefix(o, a).len() as int,
                            ));
                            let n = spec_keepers_prefix(o, a).len() as int;
                            assert(kp[n] == o.tasks[a]);
                            assert(self@.tasks[n] == kp[n]);
                            assert(!(o.tasks[a].status is Completed));
                        },
                        None => {},
                    }
                }
                assert forall|m: int|
                    0 <= m < self@.tasks.len() && (#[trigger] self@.tasks[m]).status
                        is Running implies self@.active_task_index == Some(m) by {
                    if m < kp.len() {
                        assert(self@.tasks[m] == kp[m]);
                    } else {
                        assert(self@.tasks[m] == sorted_view[m - kp.len() + drop_count]);
                    }
                }
            }
        }
    }

    /// Decides the manager invariant: whether every task is sound,
    /// the focus index denotes a running or paused task, and only the
    /// task in focus runs.
    pub fn is_wf(&self) -> (r: bool)
        ensures
            r == self@.wf(),
    {
        let len = self.tasks.len();
        if let Some(a) = self.active_task_index {
            if a >= len {
                return false;
            }
            if self.tasks[a].is_completed() {
                return false;
            }
        }
        let mut i: usize = 0;
        while i < len
            invariant
                0 <= i <= len,
                len == self@.tasks.len(),
                self@.active_not_completed(),
                forall|k: int| 0 <= k < i ==> (#[trigger] self@.tasks[k]).wf(),
                forall|k: int|
                    0 <= k < i && (#[trigger] self@.tasks[k]).status is Running
                        ==> self@.active_task_index == Some(k),
            decreases len - i,
        {
            let task = &self.tasks[i];
            proof {
                assert(self.tasks.deep_view()[i as int] == self.tasks@[i as int]@);
            }
            let started = task.started_at.is_some();
            let running = task.is_running();
            if started != running {
                return false;
            }
            if running {
                let is_active = match self.active_task_index {
                    Some(a) => a == i,
                    None => false,
                };
                if !is_active {
                    return false;
                }
            }
            i = i + 1;
        }
        true
    }

    /// Checks whether the task in focus is running.
    pub fn has_running_task(&self) -> (r: bool)
        requires
            self@.active_in_bounds(),
        ensures
            r == match self@.active_task_index {
                Some(a) => self@.tasks[a].status is Running,
                None => false,
            },
    {
        match self.current_task() {
            Some(task) => task.is_running(),
            None => false,
        }
    }
}

/// The subsequence of tasks that are not completed, in order.
pub open spec fn spec_non_completed(s: Seq<TaskView>) -> Seq<TaskView>
    decreases s.len(),
{
    if s.len() == 0 {
        Seq::empty()
    } else {
        let rest = spec_non_completed(s.drop_last());
        if s.last().status is Completed {
            rest
        } else {
            rest.push(s.last())
        }
    }
}

/// How many tasks are completed.
pub open spec fn spec_completed_count(s: Seq<TaskView>) -> int
    decreases s.len(),
{
    if s.len() == 0 {
        0
    } else {
        spec_completed_count(s.drop_last()) + if s.last().status is Completed {
            1int
        } else {
            0int
        }
    }
}

/// The completed count lies between zero and the length.
pub proof fn lemma_completed_count_bounds(s: Seq<TaskView>)
    ensures
        0 <= spec_completed_count(s) <= s.len(),
    decreases s.len(),
{
    if s.len() > 0 {
        lemma_completed_count_bounds(s.drop_last());
    }
}

/// With no completed task, removing the completed ones changes nothing.
pub proof fn lemma_no_completed_id(s: Seq<TaskView>)
    requires
        spec_completed_count(s) == 0,
    ensures
        spec_non_completed(s) == s,
    decreases s.len(),
{
    if s.len() > 0 {
        lemma_completed_count_bounds(s.drop_last());
        lemma_no_completed_id(s.drop_last());
        assert(spec_non_completed(s) =~= s);
    } else {
        assert(spec_non_completed(s) =~= s);
    }
}

/// Whether the retention pass keeps the task at index `i`: the task
/// in focus is always kept, as is every non-completed task.
pub open spec fn spec_keep(m: ManagerView, i: int) -> bool {
    m.active_task_index == Some(i) || !(m.tasks[i].status is Completed)
}

/// The kept tasks among the first `n`, in order.
pub open spec fn spec_keepers_prefix(m: ManagerView, n: int) -> Seq<TaskView>
    decreases n,
{
    if n <= 0 {
        Seq::empty()
    } else if spec_keep(m, n - 1) {
        spec_keepers_prefix(m, n - 1).push(m.tasks[n - 1])
    } else {
        spec_keepers_prefix(m, n - 1)
    }
}

/// The tasks the retention pass always keeps, in order.
pub open spec fn spec_keepers(m: ManagerView) -> Seq<TaskView> {
    spec_keepers_prefix(m, m.tasks.len() as int)
}

/// The discardable tasks among the first `n`: completed and not in
/// focus, in order.
pub open spec fn spec_completed_pool_prefix(m: ManagerView, n: int) -> Seq<TaskView>
    decreases n,
{
    if n <= 0 {
        Seq::empty()
    } else if !spec_keep(m, n - 1) {
        spec_completed_pool_prefix(m, n - 1).push(m.tasks[n - 1])
    } else {
        spec_completed_pool_prefix(m, n - 1)
    }
}

/// The tasks the retention pass may discard, in order.
pub open spec fn spec_completed_pool(m: ManagerView) -> Seq<TaskView> {
    spec_completed_pool_prefix(m, m.tasks.len() as int)
}

/// Where the focus index lands after the retention pass: its position
/// among the kept tasks.
pub open spec fn spec_new_active(m: ManagerView) -> Option<int> {
    match m.active_task_index {
        Some(a) => if 0 <= a < m.tasks.len() {
            Some(spec_keepers_prefix(m, a).len() as int)
        } else {
            None
        },
        None => None,
    }
}

/// How many of the oldest discardable tasks the retention pass drops,
/// so that kept tasks plus surviving completed ones fit the cap when
/// possible.
pub open spec fn spec_retention_drop_count(m: ManagerView) -> int {
    let keep_len = spec_keepers(m).len();
    let pool_len = spec_completed_pool(m).len();
    let slots = if keep_len >= MAX_TASKS as int {
        0int
    } else {
        MAX_TASKS as int - keep_len
    };
    if pool_len >= slots {
        pool_len - slots
    } else {
        0int
    }
}

/// Whether the tasks appear in non-decreasing order of creation time.
pub open spec fn sorted_by_created(s: Seq<TaskView>) -> bool {
    forall|i: int, j: int|
        0 <= i <= j < s.len() ==> (#[trigger] s[i]).created_at <= (#[trigger] s[j]).created_at
}

/// Sorts tasks by creation time, oldest first (insertion sort): the
/// result is a reordering of the input.
fn sort_by_created_at(v: &mut Vec<Task>)
    ensures
        final(v).deep_view().len() == old(v).deep_view().len(),
        final(v).deep_view().to_multiset() == old(v).deep_view().to_multiset(),
        sorted_by_created(final(v).deep_view()),
{
    if v.len() <= 1 {
        return;
    }
    let ghost orig = v.deep_view();
    let mut i: usize = 1;
    while i < v.len()
        invariant
            1 <= i <= v.deep_view().len(),
            v.deep_view().len() == orig.len(),
            v.deep_view().to_multiset() == orig.to_multiset(),
            sorted_by_created(v.deep_view().take(i as int)),
        decreases v.deep_view().len() - i,
    {
        let ghost s = v.deep_view();
        let key_created = v[i].created_at;
        let mut p: usize = i;
        while p > 0 && v[p - 1].created_at > key_created
            invariant
                0 <= p <= i,
                i < v.deep_view().len(),
                v.deep_view() == s,
                key_created as int == s[i as int].created_at,
                forall|k: int| p <= k < i ==> (#[trigger] s[k]).created_at > key_created as int,
            decreases p,
        {
            p = p - 1;
        }
        if p < i {
            let t = v.remove(i);
            v.insert(p, t);
            proof {
                let s1 = s.remove(i as int);
                let s2 = s1.insert(p as int, s[i as int]);
                assert(v.deep_view() =~= s2);
                s.to_multiset_ensures();
                s1.to_multiset_ensures();
                s1.insert_ensures(p as int, s[i as int]);
                s.remove_ensures(i as int);
                // The reordered sequence holds the same tasks.
                assert(s1.take(p as int).push(s[i as int]) + s1.skip(p as int) =~= s2);
                lemma_multiset_commutative(s1.take(p as int).push(s[i as int]), s1.skip(p as int));
                lemma_multiset_commutative(s1.take(p as int), s1.skip(p as int));
                s1.take(p as int).to_multiset_ensures();
                assert(s1.take(p as int) + s1.skip(p as int) =~= s1);
                assert(s2.to_multiset() =~= s1.to_multiset().insert(s[i as int]));
                assert(s.contains(s[i as int]));
                assert(s.to_multiset().count(s[i as int]) > 0);
                assert(s1.to_multiset() =~= s.to_multiset().remove(s[i as int]));
                assert(s2.to_multiset() =~= s.to_multiset());
                // The prefix one longer is ordered: everything at or
                // before the insertion point is no newer than the key,
                // everything after it in the prefix is strictly newer.
                let si = s.take(i as int);
                assert(forall|k: int| 0 <= k < i ==> si[k] == #[trigger] s[k]);
                assert(forall|k: int| 0 <= k < p ==> #[trigger] s2[k] == s[k]);
                assert(s2[p as int] == s[i as int]);
                assert(forall|k: int| p < k <= i ==> #[trigger] s2[k] == s[k - 1]);
                assert forall|k: int| 0 <= k < p implies (#[trigger] s[k]).created_at
                    <= key_created as int by {
                    assert(si[k] == s[k]);
                    assert(si[p - 1] == s[p - 1 as int]);
                    assert(s[k].created_at <= s[p - 1 as int].created_at);
                    assert(s[p - 1 as int].created_at <= key_created as int);
                }
                assert forall|x: int, y: int| 0 <= x <= y <= i implies (#[trigger] s2[x]).created_at
                    <= (#[trigger] s2[y]).created_at by {
                    if y < p {
                        assert(si[x] == s[x]);
                        assert(si[y] == s[y]);
                    } else if y == p {
                        assert(s2[y] == s[i as int]);
                    } else {
                        assert(s2[y] == s[y - 1]);
                        assert(s[y - 1].created_at > key_created as int);
                        if x > p {
                            assert(s2[x] == s[x - 1]);
                            assert(si[x - 1] == s[x - 1]);
                            assert(si[y - 1] == s[y - 1]);
                        }
                    }
                }
                assert(sorted_by_created(s2.take(i as int + 1))) by {
                    assert(forall|k: int|
                        0 <= k <= i ==> s2.take(i as int + 1)[k] == #[trigger] s2[k]);
                }
            }
        } else {
            proof {
                // Already in place: the key is no older than the whole
                // sorted prefix before it.
                let si = s.take(i as int);
                assert(forall|k: int| 0 <= k < i ==> si[k] == #[trigger] s[k]);
                assert(s[i - 1 as int].created_at <= key_created as int);
                assert forall|x: int, y: int| 0 <= x <= y <= i implies (#[trigger] s[x]).created_at
                    <= (#[trigger] s[y]).created_at by {
                    if y == i {
                        if x < i {
                            assert(si[x] == s[x]);
                            assert(si[i - 1] == s[i - 1 as int]);
                            assert(s[x].created_at <= s[i - 1 as int].created_at);
                        }
                    } else {
                        assert(si[x] == s[x]);
                        assert(si[y] == s[y]);
                    }
                }
                assert(sorted_by_created(s.take(i as int + 1))) by {
                    assert(forall|k: int|
                        0 <= k <= i ==> s.take(i as int + 1)[k] == #[trigger] s[k]);
                }
            }
        }
        i = i + 1;
    }
    proof {
        assert(v.deep_view().take(v.deep_view().len() as int) =~= v.deep_view());
    }
}

/// A prefix never holds more completed tasks than the whole.
pub proof fn lemma_completed_count_prefix(s: Seq<TaskView>, k: int)
    requires
        0 <= k <= s.len(),
    ensures
        spec_completed_count(s.take(k)) <= spec_completed_count(s),
    decreases s.len() - k,
{
    if k < s.len() {
        assert(s.take(k + 1).drop_last() =~= s.take(k));
        assert(s.take(k + 1).last() == s[k]);
        lemma_completed_count_prefix(s, k + 1);
    } else {
        assert(s.take(k) =~= s);
    }
}

} // verus!
