//! Laws of the task lifecycle, stated and proved over the models that
//! the operations' contracts use.

use vstd::prelude::*;

use crate::manager::{
    spec_complete_current, spec_non_completed, spec_start_task, ManagerView,
};
use crate::task::{spec_pause, spec_total_duration, TaskStatus, TaskView};

verus! {

/// A task records a session start exactly while it is running: in a
/// well-formed manager this holds of every task, after every
/// operation, since each operation preserves well-formedness.
pub proof fn lemma_session_start_iff_running(m: ManagerView)
    requires
        m.wf(),
    ensures
        forall|i: int|
            0 <= i < m.tasks.len() ==> ((#[trigger] m.tasks[i]).started_at is Some <==> m.tasks[
            i].status is Running),
{
}

/// At most one task runs at a time, and a running task is exactly the
/// task in focus. (More than one task may be merely paused: starting a
/// second task leaves the first paused but out of focus.)
pub proof fn lemma_running_task_unique(m: ManagerView)
    requires
        m.wf(),
    ensures
        forall|i: int, j: int|
            0 <= i < m.tasks.len() && 0 <= j < m.tasks.len() && (#[trigger] m.tasks[i]).status
                is Running && (#[trigger] m.tasks[j]).status is Running ==> i == j,
        forall|i: int|
            0 <= i < m.tasks.len() && (#[trigger] m.tasks[i]).status is Running
                ==> m.active_task_index == Some(i),
{
}

/// Starting a task over a running one pauses the old task, folding its
/// elapsed session into its accumulated duration, and leaves the new
/// task running and in focus; every other task is untouched.
pub proof fn lemma_start_pauses_previous(m: ManagerView, label: Seq<char>, now: int)
    requires
        m.wf(),
        m.active_task_index matches Some(a) && m.tasks[a].status is Running,
        spec_pause(m.tasks[m.active_task_index.unwrap()], now).1 is Ok,
    ensures
        ({
            let a = m.active_task_index.unwrap();
            let prev = m.tasks[a];
            let (m1, r) = spec_start_task(m, label, now);
            &&& r == Ok::<int, crate::errors::TaskError>(m.tasks.len() as int)
            &&& m1.tasks.len() == m.tasks.len() + 1
            &&& m1.tasks[a].status is Paused
            &&& m1.tasks[a].started_at is None
            &&& m1.tasks[a].accumulated_duration == prev.accumulated_duration + (
            now - prev.started_at.unwrap())
            &&& m1.tasks[m.tasks.len() as int].status is Running
            &&& m1.tasks[m.tasks.len() as int].label == label
            &&& m1.tasks[m.tasks.len() as int].started_at == Some(now)
            &&& m1.tasks[m.tasks.len() as int].accumulated_duration == 0
            &&& m1.active_task_index == Some(m.tasks.len() as int)
            &&& forall|j: int|
                0 <= j < m.tasks.len() && j != a ==> #[trigger] m1.tasks[j] == m.tasks[j]
        }),
{
}

/// Starting a task over a running one, in a manager whose other tasks
/// are all completed, leaves exactly one paused task — the previous
/// one, its elapsed session folded into its accumulated duration —
/// and exactly one running task, the new one, now in focus. (The
/// all-completed premise is needed for the "exactly one": a manager
/// already holding a paused task out of focus keeps it paused.)
pub proof fn lemma_start_single_focus(m: ManagerView, label: Seq<char>, now: int)
    requires
        m.wf(),
        m.active_task_index matches Some(a) && m.tasks[a].status is Running,
        spec_pause(m.tasks[m.active_task_index.unwrap()], now).1 is Ok,
        forall|j: int|
            0 <= j < m.tasks.len() && j != m.active_task_index.unwrap() ==> (#[trigger] m.tasks[
            j]).status is Completed,
    ensures
        ({
            let a = m.active_task_index.unwrap();
            let prev = m.tasks[a];
            let (m1, r) = spec_start_task(m, label, now);
            &&& r == Ok::<int, crate::errors::TaskError>(m.tasks.len() as int)
            &&& m1.active_task_index == Some(m.tasks.len() as int)
            &&& forall|j: int|
                0 <= j < m1.tasks.len() ==> ((#[trigger] m1.tasks[j]).status is Paused <==> j
                    == a)
            &&& forall|j: int|
                0 <= j < m1.tasks.len() ==> ((#[trigger] m1.tasks[j]).status is Running <==> j
                    == m.tasks.len())
            &&& m1.tasks[a].accumulated_duration == prev.accumulated_duration + (
            now - prev.started_at.unwrap())
        }),
{
    lemma_start_pauses_previous(m, label, now);
}

/// Completing the task in focus clears the focus, and the completed
/// task's total duration is frozen: it reads the same at every later
/// clock value.
pub proof fn lemma_complete_freezes(m: ManagerView, now: int)
    requires
        m.wf(),
        m.active_task_index is Some,
        spec_complete_current(m, now).1 is Ok,
    ensures
        ({
            let a = m.active_task_index.unwrap();
            let (m1, r) = spec_complete_current(m, now);
            &&& m1.active_task_index is None
            &&& m1.tasks[a].status is Completed
            &&& forall|n1: int, n2: int|
                spec_total_duration(#[trigger] m1.tasks[a], n1) == spec_total_duration(
                    m1.tasks[a],
                    n2,
                )
            &&& forall|n1: int|
                spec_total_duration(#[trigger] m1.tasks[a], n1) == m1.tasks[
                a].accumulated_duration
        }),
{
}

/// Among the first `n` tasks, a non-completed task at `a < n` survives
/// the removal of completed tasks, at the position given by how many
/// non-completed tasks precede it.
proof fn lemma_non_completed_position(s: Seq<TaskView>, a: int, n: int)
    requires
        0 <= a < n <= s.len(),
        !(s[a].status is Completed),
    ensures
        spec_non_completed(s.take(a)).len() < spec_non_completed(s.take(n)).len(),
        spec_non_completed(s.take(n))[spec_non_completed(s.take(a)).len() as int] == s[a],
    decreases n - a,
{
    if n == a + 1 {
        assert(s.take(n).drop_last() =~= s.take(a));
        assert(s.take(n).last() == s[a]);
    } else {
        lemma_non_completed_position(s, a, n - 1);
        assert(s.take(n).drop_last() =~= s.take(n - 1));
        assert(s.take(n).last() == s[n - 1]);
    }
}

/// Deleting the completed tasks keeps the task in focus reachable: the
/// re-aligned focus index points at the very task that was in focus.
pub proof fn lemma_delete_completed_keeps_active(m: ManagerView)
    requires
        m.wf(),
        m.active_task_index is Some,
    ensures
        ({
            let a = m.active_task_index.unwrap();
            let kept = spec_non_completed(m.tasks);
            let new_index = spec_non_completed(m.tasks.take(a)).len() as int;
            &&& new_index < kept.len()
            &&& kept[new_index] == m.tasks[a]
        }),
{
    let a = m.active_task_index.unwrap();
    lemma_non_completed_position(m.tasks, a, m.tasks.len() as int);
    assert(m.tasks.take(m.tasks.len() as int) =~= m.tasks);
}

} // verus!
