//! The task-workflow service: the use cases that drive the core loop.
//!
//! Create a task → start it (a focus session opens) → focus pomos complete and breaks
//! follow → complete the task → its completed focus pomos are credited to the bank.
//! Every operation validates first and writes afterwards, so a failed operation leaves
//! the store exactly as it was.

use vstd::prelude::*;

use crate::app::error::Error;
use crate::domain::bank::{ledger_sum, BankTransactionType};
use crate::domain::config::{AppConfig, AppConfigView};
use crate::domain::ids::{NoteId, TaskId};
use crate::domain::note::{Note, NoteView};
use crate::domain::pomodoro::{spec_auto_start, spec_duration, spec_next_phase, PomodoroConfigView};
use crate::domain::repository::RepositoryError;
use crate::domain::reward::{
    completed_focus_count, completed_focus_pomos, is_completed_focus, lemma_count_bounded,
    lemma_count_push, lemma_count_update, saturate_u32, session_views,
};
use crate::domain::session::{spec_expires_at, PomodoroSession, SessionStatus, SessionView, TimerPhase};
use crate::domain::task::{
    status_is_terminal, transition_allowed, InvalidTransition, Task, TaskStatus, TaskView,
};
use crate::domain::wikilink::{extract_links, wiki_links};
use crate::storage::memory::{
    backlinks_of, dedup_ids, is_listing, lemma_note_order, note_before, note_views,
    notes_of_task_newest_first, search_matches, tags_sorted, abandon_running, abandoned, is_running_of, row_exists, sessions_of, store_view_wf,
    task_focus_count, lemma_focus_count_of, lemma_task_count_update, counts_for, MemoryStore,
    StoreView, MAX_ROWS,
};
use crate::text::{strings_view, trim};
use crate::time::Timestamp;

verus! {

// --- The workflow invariant ---

/// At most one task is in progress.
pub open spec fn at_most_one_active(tasks: Seq<TaskView>) -> bool {
    forall|i: int, j: int|
        0 <= i < tasks.len() && 0 <= j < tasks.len() && (#[trigger] tasks[i]).status
            == TaskStatus::InProgress && (#[trigger] tasks[j]).status == TaskStatus::InProgress
            ==> i == j
}

/// Every running session belongs to the task in progress.
pub open spec fn running_sessions_are_active(v: StoreView) -> bool {
    forall|k: int|
        0 <= k < v.sessions.len() && (#[trigger] v.sessions[k]).status == SessionStatus::Running
            ==> v.tasks[v.sessions[k].task_id@ - 1].status == TaskStatus::InProgress
}

/// At most one session is running.
pub open spec fn at_most_one_running(sessions: Seq<SessionView>) -> bool {
    forall|k: int, l: int|
        0 <= k < sessions.len() && 0 <= l < sessions.len() && (#[trigger] sessions[k]).status
            == SessionStatus::Running && (#[trigger] sessions[l]).status == SessionStatus::Running
            ==> k == l
}

/// The workflow invariant: a well-formed store with a single active task that alone
/// owns the (single) running timer.
pub open spec fn workflow_inv(v: StoreView) -> bool {
    &&& store_view_wf(v)
    &&& at_most_one_active(v.tasks)
    &&& running_sessions_are_active(v)
    &&& at_most_one_running(v.sessions)
}

// --- The effects of the operations ---

/// A task moved to `status` at `now`: completing records the completion time.
pub open spec fn moved_to(t: TaskView, status: TaskStatus, now: Timestamp) -> TaskView {
    TaskView {
        status,
        completed_at: if status == TaskStatus::Done {
            Some(now)
        } else {
            t.completed_at
        },
        ..t
    }
}

/// A task paused if it was in progress.
pub open spec fn paused_if_active(t: TaskView) -> TaskView {
    if t.status == TaskStatus::InProgress {
        TaskView { status: TaskStatus::Paused, ..t }
    } else {
        t
    }
}

/// A session abandoned at `now` if it was running.
pub open spec fn abandoned_if_running(s: SessionView, now: Timestamp) -> SessionView {
    if s.status == SessionStatus::Running {
        SessionView { status: SessionStatus::Abandoned, finished_at: Some(now), ..s }
    } else {
        s
    }
}

/// Every task in progress paused.
pub open spec fn pause_every_active(tasks: Seq<TaskView>) -> Seq<TaskView> {
    tasks.map_values(|t: TaskView| paused_if_active(t))
}

/// Every running session abandoned at `now`.
pub open spec fn abandon_every_running(sessions: Seq<SessionView>, now: Timestamp) -> Seq<SessionView> {
    sessions.map_values(|s: SessionView| abandoned_if_running(s, now))
}

/// Under the invariant, abandoning the running sessions of the task in progress
/// abandons every running session.
proof fn lemma_abandon_active(v: StoreView, ai: int, now: Timestamp)
    requires
        workflow_inv(v),
        0 <= ai < v.tasks.len(),
        v.tasks[ai].status == TaskStatus::InProgress,
    ensures
        abandon_running(v.sessions, v.tasks[ai].id, now) == abandon_every_running(v.sessions, now),
{
    broadcast use crate::domain::ids::TaskId::lemma_view_injective;

    assert forall|k: int| 0 <= k < v.sessions.len() implies abandoned(
        #[trigger] v.sessions[k],
        v.tasks[ai].id,
        now,
    ) == abandoned_if_running(v.sessions[k], now) by {
        if v.sessions[k].status == SessionStatus::Running {
            let ti = v.sessions[k].task_id@ - 1;
            assert(v.tasks[ti].status == TaskStatus::InProgress);
            assert(ti == ai);
            assert(v.tasks[ai].id@ == ai + 1);
            assert(v.sessions[k].task_id == v.tasks[ai].id);
        }
    }
    assert(abandon_running(v.sessions, v.tasks[ai].id, now) =~= abandon_every_running(v.sessions, now));
}

/// Under the invariant, with no task in progress nothing is running and nothing is
/// paused by pausing the active task.
proof fn lemma_nothing_active(v: StoreView, now: Timestamp)
    requires
        workflow_inv(v),
        forall|i: int| 0 <= i < v.tasks.len() ==> (#[trigger] v.tasks[i]).status != TaskStatus::InProgress,
    ensures
        abandon_every_running(v.sessions, now) == v.sessions,
        pause_every_active(v.tasks) == v.tasks,
{
    assert forall|k: int| 0 <= k < v.sessions.len() implies abandoned_if_running(
        #[trigger] v.sessions[k],
        now,
    ) == v.sessions[k] by {
        if v.sessions[k].status == SessionStatus::Running {
            let ti = v.sessions[k].task_id@ - 1;
            assert(v.tasks[ti].status == TaskStatus::InProgress);
        }
    }
    assert(abandon_every_running(v.sessions, now) =~= v.sessions);
    assert(pause_every_active(v.tasks) =~= v.tasks);
}

/// Pausing the single task in progress pauses every task in progress.
proof fn lemma_pause_single(tasks: Seq<TaskView>, ai: int)
    requires
        at_most_one_active(tasks),
        0 <= ai < tasks.len(),
        tasks[ai].status == TaskStatus::InProgress,
    ensures
        tasks.update(ai, moved_to(tasks[ai], TaskStatus::Paused, tasks[ai].created_at))
            == pause_every_active(tasks),
{
    assert forall|j: int| 0 <= j < tasks.len() implies #[trigger] tasks.update(
        ai,
        moved_to(tasks[ai], TaskStatus::Paused, tasks[ai].created_at),
    )[j] == pause_every_active(tasks)[j] by {
        if j != ai && tasks[j].status == TaskStatus::InProgress {
            assert(false);
        }
    }
    assert(tasks.update(ai, moved_to(tasks[ai], TaskStatus::Paused, tasks[ai].created_at))
        =~= pause_every_active(tasks));
}

/// Starting task `i`: every other task paused, every earlier timer abandoned, and one
/// fresh session for task `i` keeps the invariant.
proof fn lemma_start_keeps_inv(o: StoreView, f: StoreView, i: int, now: Timestamp)
    requires
        workflow_inv(o),
        store_view_wf(f),
        0 <= i < o.tasks.len(),
        f.tasks.len() == o.tasks.len(),
        f.tasks[i].status == TaskStatus::InProgress,
        forall|j: int| 0 <= j < f.tasks.len() && j != i ==> #[trigger] f.tasks[j] == paused_if_active(o.tasks[j]),
        f.sessions.len() == o.sessions.len() + 1,
        f.sessions.drop_last() == abandon_every_running(o.sessions, now),
        f.sessions.last().task_id@ == i + 1,
    ensures
        workflow_inv(f),
{
    assert forall|x: int, y: int|
        0 <= x < f.tasks.len() && 0 <= y < f.tasks.len() && (#[trigger] f.tasks[x]).status
            == TaskStatus::InProgress && (#[trigger] f.tasks[y]).status == TaskStatus::InProgress
            implies x == y by {
        assert(x == i);
        assert(y == i);
    }
    assert forall|k: int|
        0 <= k < f.sessions.len() && (#[trigger] f.sessions[k]).status
            == SessionStatus::Running implies f.tasks[f.sessions[k].task_id@ - 1].status
        == TaskStatus::InProgress by {
        if k < o.sessions.len() {
            assert(f.sessions[k] == f.sessions.drop_last()[k]);
            assert(f.sessions[k] == abandoned_if_running(o.sessions[k], now));
        }
    }
    assert forall|k: int, l: int|
        0 <= k < f.sessions.len() && 0 <= l < f.sessions.len() && (#[trigger] f.sessions[k]).status
            == SessionStatus::Running && (#[trigger] f.sessions[l]).status
            == SessionStatus::Running implies k == l by {
        if k < o.sessions.len() {
            assert(f.sessions[k] == f.sessions.drop_last()[k]);
            assert(f.sessions[k] == abandoned_if_running(o.sessions[k], now));
        }
        if l < o.sessions.len() {
            assert(f.sessions[l] == f.sessions.drop_last()[l]);
            assert(f.sessions[l] == abandoned_if_running(o.sessions[l], now));
        }
    }
}

/// A session completed at `now`.
pub open spec fn completed_at(s: SessionView, now: Timestamp) -> SessionView {
    SessionView { status: SessionStatus::Completed, finished_at: Some(now), ..s }
}

/// The phase that follows completing the running session `s` of `task_id`, given the
/// sessions after its completion.
pub open spec fn phase_after(
    cfg: PomodoroConfigView,
    s: SessionView,
    after: Seq<SessionView>,
    task_id: TaskId,
) -> TimerPhase {
    spec_next_phase(cfg, s.phase, saturate_u32(task_focus_count(after, task_id)) as int)
}

/// What advancing the cycle of `task_id` does, finishing its phase at `finished` and
/// starting any next one at `now`: with no running session it fails and changes
/// nothing; otherwise it completes that session and, if the next phase starts by
/// itself, opens a session for it (failing with a storage error, with nothing changed,
/// when the session table is full).
pub open spec fn advance_outcome(
    o: StoreView,
    f: StoreView,
    cfg: PomodoroConfigView,
    task_id: TaskId,
    finished: Timestamp,
    now: Timestamp,
    r: Result<(), Error>,
) -> bool {
    &&& running_index(o, task_id) is None ==> (r matches Err(Error::NoRunningSession))
    &&& r is Err ==> f == o
    &&& running_index(o, task_id) matches Some(j) ==> {
        let s = o.sessions[j];
        let after = o.sessions.update(j, completed_at(s, finished));
        let next = phase_after(cfg, s, after, task_id);
        let auto = spec_auto_start(cfg, next);
        &&& r is Ok <==> !(auto && o.sessions.len() >= MAX_ROWS)
        &&& auto && o.sessions.len() >= MAX_ROWS ==> (r matches Err(Error::Repository(_)))
        &&& r is Ok ==> {
            &&& f.tasks == o.tasks
            &&& f.transactions == o.transactions
            &&& f.notes == o.notes
            &&& f.tags == o.tags
            &&& f.links == o.links
            &&& auto ==> f.sessions.len() == o.sessions.len() + 1 && f.sessions.drop_last() == after
                && is_fresh_session(
                f.sessions.last(),
                o.sessions.len() + 1int,
                task_id,
                next,
                spec_duration(cfg, next),
                now,
            )
            &&& !auto ==> f.sessions == after
        }
    }
}

/// A task never has more completed focus pomos than there are sessions.
proof fn lemma_task_count_bounded(sessions: Seq<SessionView>, task_id: TaskId)
    ensures
        task_focus_count(sessions, task_id) <= sessions.len(),
    decreases sessions.len(),
{
    if sessions.len() > 0 {
        lemma_task_count_bounded(sessions.drop_last(), task_id);
    }
}

/// Advancing a task's cycle completes its running session at `finished` and opens a
/// new session exactly when the phase that follows is set to start by itself: after a
/// focus comes a break, which starts by itself only with auto-start for breaks on; after
/// a break comes a focus, which starts by itself only with auto-start for focus on. A
/// focus is followed by a long break exactly when the task's completed focus pomos, the
/// one just finished included, are a multiple of the long-break cadence. The new
/// session is for the task, running from `now`.
pub proof fn lemma_advance_opens_the_next_phase(
    o: StoreView,
    f: StoreView,
    cfg: PomodoroConfigView,
    task_id: TaskId,
    finished: Timestamp,
    now: Timestamp,
    r: Result<(), Error>,
    j: int,
)
    requires
        workflow_inv(o),
        advance_outcome(o, f, cfg, task_id, finished, now, r),
        r is Ok,
        0 <= j < o.sessions.len(),
        is_running_of(o.sessions[j], task_id),
    ensures
        f.sessions[j].status == SessionStatus::Completed,
        f.sessions[j].finished_at == Some(finished),
        f.sessions.len() == o.sessions.len() || f.sessions.len() == o.sessions.len() + 1,
        f.sessions.len() == o.sessions.len() + 1 <==> if o.sessions[j].phase == TimerPhase::Focus {
            cfg.auto_start_break
        } else {
            cfg.auto_start_focus
        },
        f.sessions.len() == o.sessions.len() + 1 ==> {
            let s = f.sessions.last();
            &&& s.task_id == task_id
            &&& s.status == SessionStatus::Running
            &&& s.started_at == now
            &&& o.sessions[j].phase != TimerPhase::Focus ==> s.phase == TimerPhase::Focus
            &&& o.sessions[j].phase == TimerPhase::Focus ==> s.phase != TimerPhase::Focus && (
            s.phase == TimerPhase::LongBreak <==> (task_focus_count(o.sessions, task_id) + 1) as int % (
            cfg.long_break_after as int) == 0)
        },
{
    lemma_running_index(o, task_id, j);
    let s = o.sessions[j];
    let after = o.sessions.update(j, completed_at(s, finished));
    lemma_task_count_update(o.sessions, j, completed_at(s, finished), task_id);
    lemma_task_count_bounded(after, task_id);
    let count = task_focus_count(after, task_id);
    assert(count <= u32::MAX);
    assert(saturate_u32(count) == count);
    if s.phase == TimerPhase::Focus {
        assert(count == task_focus_count(o.sessions, task_id) + 1);
    }
    let next = phase_after(cfg, s, after, task_id);
    if spec_auto_start(cfg, next) {
        assert(f.sessions.drop_last() == after);
        assert(f.sessions[j] == f.sessions.drop_last()[j]);
    }
}

/// The task in progress, if it has a running session whose configured duration has
/// fully elapsed at `now`.
pub open spec fn expired_active_task(v: StoreView, now: Timestamp) -> Option<TaskId> {
    if exists|i: int| 0 <= i < v.tasks.len() && (#[trigger] v.tasks[i]).status == TaskStatus::InProgress {
        let i = choose|i: int| 0 <= i < v.tasks.len() && (#[trigger] v.tasks[i]).status == TaskStatus::InProgress;
        match running_index(v, v.tasks[i].id) {
            Some(j) => if crate::domain::session::spec_remaining_seconds(v.sessions[j], now) <= 0 {
                Some(v.tasks[i].id)
            } else {
                None
            },
            None => None,
        }
    } else {
        None
    }
}

/// Under the invariant, the running session of a task is the only running session.
proof fn lemma_running_index(v: StoreView, task_id: TaskId, j: int)
    requires
        workflow_inv(v),
        0 <= j < v.sessions.len(),
        is_running_of(v.sessions[j], task_id),
    ensures
        running_index(v, task_id) == Some(j),
        forall|k: int| 0 <= k < v.sessions.len() && k != j ==> (#[trigger] v.sessions[k]).status
            != SessionStatus::Running,
{
    assert forall|k: int| 0 <= k < v.sessions.len() && k != j implies (#[trigger] v.sessions[k]).status
        != SessionStatus::Running by {
        if v.sessions[k].status == SessionStatus::Running {
            assert(v.sessions[j].status == SessionStatus::Running);
        }
    }
    let c = choose|k: int| 0 <= k < v.sessions.len() && is_running_of(#[trigger] v.sessions[k], task_id);
    assert(c == j);
}

/// Completing the only running session, and possibly starting a fresh one for the same
/// (in-progress) task, keeps the invariant.
proof fn lemma_advance_keeps_inv(o: StoreView, f: StoreView, j: int, now: Timestamp, started: bool)
    requires
        workflow_inv(o),
        store_view_wf(f),
        0 <= j < o.sessions.len(),
        o.sessions[j].status == SessionStatus::Running,
        f.tasks == o.tasks,
        started ==> f.sessions.len() == o.sessions.len() + 1 && f.sessions.drop_last()
            == o.sessions.update(j, completed_at(o.sessions[j], now)) && f.sessions.last().task_id
            == o.sessions[j].task_id,
        !started ==> f.sessions == o.sessions.update(j, completed_at(o.sessions[j], now)),
    ensures
        workflow_inv(f),
{
    let after = o.sessions.update(j, completed_at(o.sessions[j], now));
    assert forall|k: int| 0 <= k < after.len() && k != j implies (#[trigger] after[k]).status
        != SessionStatus::Running by {
        if o.sessions[k].status == SessionStatus::Running {
            assert(o.sessions[j].status == SessionStatus::Running);
        }
    }
    assert forall|k: int|
        0 <= k < f.sessions.len() && (#[trigger] f.sessions[k]).status
            == SessionStatus::Running implies f.tasks[f.sessions[k].task_id@ - 1].status
        == TaskStatus::InProgress by {
        if k < after.len() {
            assert(f.sessions[k] == after[k]);
        } else {
            assert(o.sessions[j].status == SessionStatus::Running);
        }
    }
    assert forall|k: int, l: int|
        0 <= k < f.sessions.len() && 0 <= l < f.sessions.len() && (#[trigger] f.sessions[k]).status
            == SessionStatus::Running && (#[trigger] f.sessions[l]).status
            == SessionStatus::Running implies k == l by {
        if k < after.len() {
            assert(f.sessions[k] == after[k]);
        }
        if l < after.len() {
            assert(f.sessions[l] == after[l]);
        }
    }
}

/// What pausing or cancelling `task_id` at `now` does: it fails, changing nothing, if
/// the task does not exist or may not move to `target`; otherwise the task moves to
/// `target` and its running sessions are abandoned, and nothing else changes.
pub open spec fn stop_outcome(
    o: StoreView,
    f: StoreView,
    task_id: TaskId,
    target: TaskStatus,
    now: Timestamp,
    r: Result<Task, Error>,
) -> bool {
    let i = task_id@ - 1;
    let exists_ = row_exists(task_id@, o.tasks.len() as int);
    &&& !exists_ ==> (r matches Err(Error::TaskNotFound))
    &&& exists_ && !transition_allowed(o.tasks[i].status, target) ==> (r matches Err(
        Error::Transition(e),
    ) && e.spec_from() == o.tasks[i].status && e.spec_to() == target)
    &&& r is Ok <==> exists_ && transition_allowed(o.tasks[i].status, target)
    &&& r is Err ==> f == o
    &&& r matches Ok(t) ==> {
        &&& t@ == moved_to(o.tasks[i], target, now)
        &&& f.tasks == o.tasks.update(i, t@)
        &&& f.sessions == abandon_running(o.sessions, task_id, now)
        &&& f.transactions == o.transactions
        &&& f.notes == o.notes
        &&& f.tags == o.tags
        &&& f.links == o.links
    }
}

/// Moving task `i` out of progress and abandoning its running sessions keeps the
/// invariant, whatever happens to the ledger.
proof fn lemma_stop_keeps_inv(o: StoreView, f: StoreView, i: int, now: Timestamp)
    requires
        workflow_inv(o),
        store_view_wf(f),
        0 <= i < o.tasks.len(),
        f.tasks.len() == o.tasks.len(),
        f.tasks[i].status != TaskStatus::InProgress,
        forall|j: int| 0 <= j < f.tasks.len() && j != i ==> #[trigger] f.tasks[j] == o.tasks[j],
        f.sessions == abandon_running(o.sessions, o.tasks[i].id, now),
    ensures
        workflow_inv(f),
{
    broadcast use crate::domain::ids::TaskId::lemma_view_injective;

    assert forall|x: int, y: int|
        0 <= x < f.tasks.len() && 0 <= y < f.tasks.len() && (#[trigger] f.tasks[x]).status
            == TaskStatus::InProgress && (#[trigger] f.tasks[y]).status == TaskStatus::InProgress
            implies x == y by {
        assert(f.tasks[x] == o.tasks[x]);
        assert(f.tasks[y] == o.tasks[y]);
    }
    assert forall|k: int|
        0 <= k < f.sessions.len() && (#[trigger] f.sessions[k]).status
            == SessionStatus::Running implies f.tasks[f.sessions[k].task_id@ - 1].status
        == TaskStatus::InProgress by {
        assert(f.sessions[k] == abandoned(o.sessions[k], o.tasks[i].id, now));
        assert(o.sessions[k].status == SessionStatus::Running);
        assert(o.tasks[i].id@ == i + 1);
        assert(f.sessions[k].task_id != o.tasks[i].id);
    }
    assert forall|k: int, l: int|
        0 <= k < f.sessions.len() && 0 <= l < f.sessions.len() && (#[trigger] f.sessions[k]).status
            == SessionStatus::Running && (#[trigger] f.sessions[l]).status
            == SessionStatus::Running implies k == l by {
        assert(f.sessions[k] == abandoned(o.sessions[k], o.tasks[i].id, now));
        assert(f.sessions[l] == abandoned(o.sessions[l], o.tasks[i].id, now));
    }
}

/// Abandoning running sessions changes no completed focus count.
proof fn lemma_abandon_keeps_counts(sessions: Seq<SessionView>, t: TaskId, now: Timestamp, u: TaskId)
    ensures
        task_focus_count(abandon_running(sessions, t, now), u) == task_focus_count(sessions, u),
    decreases sessions.len(),
{
    if sessions.len() > 0 {
        lemma_abandon_keeps_counts(sessions.drop_last(), t, now, u);
        assert(abandon_running(sessions, t, now).drop_last() =~= abandon_running(
            sessions.drop_last(),
            t,
            now,
        ));
    }
}

/// Whether `s` is a freshly started session with id `id` for `task_id`.
pub open spec fn is_fresh_session(
    s: SessionView,
    id: int,
    task_id: TaskId,
    phase: TimerPhase,
    duration: u32,
    now: Timestamp,
) -> bool {
    &&& s.id@ == id
    &&& s.task_id == task_id
    &&& s.phase == phase
    &&& s.status == SessionStatus::Running
    &&& s.configured_duration_seconds == duration
    &&& s.started_at == now
    &&& s.finished_at is None
}

/// The index of the running session of a task in the store, when it has one.
pub open spec fn running_index(v: StoreView, task_id: TaskId) -> Option<int> {
    if exists|k: int| 0 <= k < v.sessions.len() && is_running_of(#[trigger] v.sessions[k], task_id) {
        Some(choose|k: int| 0 <= k < v.sessions.len() && is_running_of(#[trigger] v.sessions[k], task_id))
    } else {
        None
    }
}

/// The completed focus pomos of a task, clamped to `u32`.
pub open spec fn spec_completed_pomos(v: StoreView, task_id: TaskId) -> nat {
    saturate_u32(task_focus_count(v.sessions, task_id))
}

/// The phase awaiting a manual start for a task: only for a task in progress that has
/// no running session; the phase after its latest session, or a focus if it has none.
pub open spec fn spec_pending_next_phase(
    v: StoreView,
    cfg: PomodoroConfigView,
    task_id: TaskId,
) -> Option<TimerPhase> {
    if !row_exists(task_id@, v.tasks.len() as int) {
        None
    } else if v.tasks[task_id@ - 1].status != TaskStatus::InProgress {
        None
    } else if running_index(v, task_id) is Some {
        None
    } else if sessions_of(v.sessions, task_id).len() == 0 {
        Some(TimerPhase::Focus)
    } else {
        Some(
            spec_next_phase(
                cfg,
                sessions_of(v.sessions, task_id).last().phase,
                spec_completed_pomos(v, task_id) as int,
            ),
        )
    }
}

/// What awaits a manual start for a task: something only for a task in progress with
/// no running session; a focus when the task has no sessions yet or its latest one was
/// a break; after a focus, a long break exactly when the task's completed focus pomos
/// are a multiple of the long-break cadence, and a short break otherwise.
pub proof fn lemma_pending_phase_follows_the_history(
    v: StoreView,
    cfg: PomodoroConfigView,
    task_id: TaskId,
)
    requires
        workflow_inv(v),
    ensures
        ({
            let p = spec_pending_next_phase(v, cfg, task_id);
            let history = sessions_of(v.sessions, task_id);
            &&& p is Some <==> row_exists(task_id@, v.tasks.len() as int) && v.tasks[task_id@
                - 1].status == TaskStatus::InProgress && !(exists|k: int|
                0 <= k < v.sessions.len() && is_running_of(#[trigger] v.sessions[k], task_id))
            &&& p is Some && (history.len() == 0 || history.last().phase != TimerPhase::Focus)
                ==> p == Some(TimerPhase::Focus)
            &&& p is Some && history.len() > 0 && history.last().phase == TimerPhase::Focus ==> p
                != Some(TimerPhase::Focus) && (p == Some(TimerPhase::LongBreak) <==> task_focus_count(
                v.sessions,
                task_id,
            ) as int % (cfg.long_break_after as int) == 0)
        }),
{
    lemma_task_count_bounded(v.sessions, task_id);
    assert(spec_completed_pomos(v, task_id) == task_focus_count(v.sessions, task_id));
}

/// Whether a well-formed store satisfies the workflow invariant (a store loaded from
/// rows is checked with this before a service runs over it).
pub fn workflow_invariant_holds(store: &MemoryStore) -> (r: bool)
    requires
        store.wf(),
    ensures
        r == workflow_inv(store@),
{
    let ghost v = store@;
    let tasks = store.list_tasks();
    let sessions = store.list_sessions();
    let ghost tv = tasks@.map_values(|t: Task| t@);
    let mut active: Option<usize> = None;
    let mut i: usize = 0;
    while i < tasks.len()
        invariant
            i <= tasks@.len(),
            v == store@,
            tv == tasks@.map_values(|t: Task| t@),
            tv == v.tasks,
            active is None ==> forall|k: int| 0 <= k < i ==> (#[trigger] v.tasks[k]).status != TaskStatus::InProgress,
            active matches Some(a) ==> a < i && v.tasks[a as int].status == TaskStatus::InProgress
                && forall|k: int| 0 <= k < i && k != a ==> (#[trigger] v.tasks[k]).status != TaskStatus::InProgress,
        decreases tasks.len() - i,
    {
        proof {
            assert(tv[i as int] == tasks@[i as int]@);
        }
        if tasks[i].status().is_active() {
            if let Some(a) = active {
                proof {
                    assert(!at_most_one_active(v.tasks)) by {
                        assert(v.tasks[a as int].status == TaskStatus::InProgress);
                        assert(v.tasks[i as int].status == TaskStatus::InProgress);
                    }
                }
                return false;
            }
            active = Some(i);
        }
        i = i + 1;
    }
    let mut running: Option<usize> = None;
    let mut j: usize = 0;
    while j < sessions.len()
        invariant
            j <= sessions@.len(),
            v == store@,
            store_view_wf(v),
            tv == tasks@.map_values(|t: Task| t@),
            tv == v.tasks,
            session_views(sessions@) == v.sessions,
            at_most_one_active(v.tasks),
            running is None ==> forall|k: int| 0 <= k < j ==> (#[trigger] v.sessions[k]).status != SessionStatus::Running,
            running matches Some(a) ==> a < j && v.sessions[a as int].status == SessionStatus::Running
                && forall|k: int| 0 <= k < j && k != a ==> (#[trigger] v.sessions[k]).status != SessionStatus::Running,
            forall|k: int|
                0 <= k < j && (#[trigger] v.sessions[k]).status == SessionStatus::Running
                    ==> v.tasks[v.sessions[k].task_id@ - 1].status == TaskStatus::InProgress,
        decreases sessions.len() - j,
    {
        let s = sessions[j];
        proof {
            assert(v.sessions[j as int] == s@);
        }
        match s.status() {
            SessionStatus::Running => {
                if let Some(a) = running {
                    proof {
                        assert(!at_most_one_running(v.sessions)) by {
                            assert(v.sessions[a as int].status == SessionStatus::Running);
                            assert(v.sessions[j as int].status == SessionStatus::Running);
                        }
                    }
                    return false;
                }
                running = Some(j);
                let owner = (s.task_id().value() - 1) as usize;
                proof {
                    assert(tv[owner as int] == tasks@[owner as int]@);
                }
                if !tasks[owner].status().is_active() {
                    proof {
                        assert(!running_sessions_are_active(v)) by {
                            assert(v.sessions[j as int].status == SessionStatus::Running);
                        }
                    }
                    return false;
                }
            },
            _ => {},
        }
        j = j + 1;
    }
    true
}

/// The service over the store and the configuration.
pub struct TaskService {
    store: MemoryStore,
    config: AppConfig,
}

impl TaskService {
    /// The store's contents.
    pub closed spec fn spec_store(&self) -> StoreView {
        self.store@
    }

    /// The configuration's contents.
    pub closed spec fn spec_config(&self) -> AppConfigView {
        self.config@
    }

    /// The service's invariant.
    pub open spec fn inv(&self) -> bool {
        workflow_inv(self.spec_store())
    }

    /// Creates a service over `store` with the given application configuration.
    ///
    /// The store must satisfy the workflow invariant (an empty store does; see
    /// [`workflow_invariant_holds`] for a loaded one).
    pub fn new(store: MemoryStore, config: AppConfig) -> (r: Self)
        requires
            workflow_inv(store@),
        ensures
            r.inv(),
            r.spec_store() == store@,
            r.spec_config() == config@,
    {
        TaskService { store, config }
    }

    /// The store the service runs against.
    pub fn store(&self) -> (r: &MemoryStore)
        ensures
            r@ == self.spec_store(),
    {
        &self.store
    }

    /// The configured leisure minutes earned per banked pomo.
    pub fn leisure_minutes_per_pomo(&self) -> (r: u32)
        ensures
            r == self.spec_config().leisure_minutes_per_pomo,
    {
        self.config.leisure_minutes_per_pomo()
    }

    /// The current application configuration.
    pub fn config(&self) -> (r: AppConfig)
        ensures
            r@ == self.spec_config(),
    {
        self.config
    }

    /// Replaces the configuration, applying it to subsequent operations.
    pub fn set_config(&mut self, config: AppConfig)
        ensures
            final(self).spec_config() == config@,
            final(self).spec_store() == old(self).spec_store(),
    {
        self.config = config;
    }

    /// Creates a new `Todo` task.
    ///
    /// # Errors
    /// Returns a storage error when the task table is full; nothing changes then.
    pub fn create_task(&mut self, title: &str, estimated_pomos: u32, now: Timestamp) -> (r:
        Result<Task, Error>)
        requires
            old(self).inv(),
        ensures
            final(self).inv(),
            final(self).spec_config() == old(self).spec_config(),
            r is Ok <==> old(self).spec_store().tasks.len() < MAX_ROWS,
            r matches Ok(t) ==> {
                &&& t@.id@ == old(self).spec_store().tasks.len() + 1
                &&& t@.title == title@
                &&& t@.status == TaskStatus::Todo
                &&& t@.estimated_pomos == estimated_pomos
                &&& t@.created_at == now
                &&& final(self).spec_store() == (StoreView {
                    tasks: old(self).spec_store().tasks.push(t@),
                    ..old(self).spec_store()
                })
            },
            r matches Err(e) ==> e is Repository && final(self).spec_store()
                == old(self).spec_store(),
    {
        match self.store.create_task(title, estimated_pomos, now) {
            Ok(task) => {
                proof {
                    let v = self.store@;
                    let o = old(self).store@;
                    assert forall|i: int, j: int|
                        0 <= i < v.tasks.len() && 0 <= j < v.tasks.len() && (#[trigger] v.tasks[i]).status
                            == TaskStatus::InProgress && (#[trigger] v.tasks[j]).status
                            == TaskStatus::InProgress implies i == j by {
                        if i < o.tasks.len() && j < o.tasks.len() {
                            assert(o.tasks[i] == v.tasks[i]);
                            assert(o.tasks[j] == v.tasks[j]);
                        }
                    }
                    assert forall|k: int|
                        0 <= k < v.sessions.len() && (#[trigger] v.sessions[k]).status
                            == SessionStatus::Running implies v.tasks[v.sessions[k].task_id@
                        - 1].status == TaskStatus::InProgress by {
                        assert(o.sessions[k] == v.sessions[k]);
                        assert(v.tasks[v.sessions[k].task_id@ - 1] == o.tasks[o.sessions[k].task_id@
                            - 1]);
                    }
                }
                Ok(task)
            },
            Err(e) => Err(Error::Repository(e)),
        }
    }

    /// Moves a task into progress and starts a focus session.
    ///
    /// Preserves the single-active-task invariant by **auto-pausing** any other active
    /// task first (abandoning its running pomo), then activating the requested one, all
    /// as one change.
    ///
    /// # Errors
    /// [`Error::TaskNotFound`] if the task does not exist, [`Error::Transition`] if it
    /// cannot move to in-progress, or a storage error when the session table is full;
    /// nothing changes then.
    #[verifier::rlimit(60)]
    pub fn start_task(&mut self, task_id: TaskId, now: Timestamp) -> (r: Result<Task, Error>)
        requires
            old(self).inv(),
        ensures
            final(self).inv(),
            final(self).spec_config() == old(self).spec_config(),
            ({
                let o = old(self).spec_store();
                let i = task_id@ - 1;
                &&& !row_exists(task_id@, o.tasks.len() as int) ==> (r matches Err(Error::TaskNotFound))
                &&& row_exists(task_id@, o.tasks.len() as int) && !transition_allowed(
                    o.tasks[i].status,
                    TaskStatus::InProgress,
                ) ==> (r matches Err(Error::Transition(e)) && e.spec_from() == o.tasks[i].status
                    && e.spec_to() == TaskStatus::InProgress)
                &&& r is Ok <==> row_exists(task_id@, o.tasks.len() as int) && transition_allowed(
                    o.tasks[i].status,
                    TaskStatus::InProgress,
                ) && o.sessions.len() < MAX_ROWS
                &&& row_exists(task_id@, o.tasks.len() as int) && transition_allowed(
                    o.tasks[i].status,
                    TaskStatus::InProgress,
                ) && o.sessions.len() >= MAX_ROWS ==> (r matches Err(Error::Repository(_)))
                &&& r is Err ==> final(self).spec_store() == o
                &&& r matches Ok(t) ==> {
                    let f = final(self).spec_store();
                    &&& t@ == moved_to(o.tasks[i], TaskStatus::InProgress, now)
                    &&& f.tasks == pause_every_active(o.tasks).update(i, t@)
                    &&& f.sessions.len() == o.sessions.len() + 1
                    &&& f.sessions.drop_last() == abandon_every_running(o.sessions, now)
                    &&& is_fresh_session(
                        f.sessions.last(),
                        o.sessions.len() + 1int,
                        task_id,
                        TimerPhase::Focus,
                        spec_duration(old(self).spec_config().pomodoro, TimerPhase::Focus),
                        now,
                    )
                    &&& f.transactions == o.transactions
                    &&& f.notes == o.notes
                    &&& f.tags == o.tags
                    &&& f.links == o.links
                }
            }),
    {
        let ghost o = self.store@;
        let mut task = match self.store.get_task(task_id) {
            Some(t) => t,
            None => return Err(Error::TaskNotFound),
        };
        match task.apply_transition(TaskStatus::InProgress, now) {
            Ok(()) => {},
            Err(e) => return Err(Error::Transition(e)),
        }
        if self.store.session_count() >= MAX_ROWS {
            return Err(
                Error::Repository(
                    RepositoryError::Backend { message: String::from_str("session table is full") },
                ),
            );
        }
        let ghost i = task_id@ - 1;
        let active = self.store.find_active_task();
        match active {
            Some(mut a) => {
                let ghost ai = choose|ai: int|
                    0 <= ai < o.tasks.len() && a@ == #[trigger] o.tasks[ai] && a@.status
                        == TaskStatus::InProgress && forall|j: int|
                        0 <= j < ai ==> (#[trigger] o.tasks[j]).status != TaskStatus::InProgress;
                proof {
                    assert(a@.id@ == ai + 1);
                    lemma_abandon_active(o, ai, now);
                }
                match a.apply_transition(TaskStatus::Paused, now) {
                    Ok(()) => {},
                    Err(e) => return Err(Error::Transition(e)),
                }
                self.store.abandon_running_sessions(a.id(), now);
                match self.store.update_task(&a) {
                    Ok(()) => {},
                    Err(e) => return Err(Error::Repository(e)),
                }
                proof {
                    lemma_pause_single(o.tasks, ai);
                }
            },
            None => {
                proof {
                    lemma_nothing_active(o, now);
                }
            },
        }
        match self.store.update_task(&task) {
            Ok(()) => {},
            Err(e) => return Err(Error::Repository(e)),
        }
        let duration = self.config.pomodoro().duration_seconds(TimerPhase::Focus);
        match self.store.create_session(task_id, TimerPhase::Focus, duration, now) {
            Ok(_) => {},
            Err(e) => return Err(Error::Repository(e)),
        }
        proof {
            let f = self.store@;
            assert(f.sessions.drop_last() =~= abandon_every_running(o.sessions, now));
            lemma_start_keeps_inv(o, f, i, now);
        }
        Ok(task)
    }

    /// Advances the Pomodoro cycle: completes the task's running session and, per the
    /// configured auto-start policy, starts the next phase (focus → break → focus …).
    ///
    /// Called both when a phase's timer reaches zero and when the user skips a break.
    ///
    /// # Errors
    /// [`Error::NoRunningSession`] if the task has no running session, or a storage
    /// error when the next phase would start but the session table is full; nothing
    /// changes then.
    pub fn advance_pomodoro(&mut self, task_id: TaskId, now: Timestamp) -> (r: Result<(), Error>)
        requires
            old(self).inv(),
        ensures
            final(self).inv(),
            final(self).spec_config() == old(self).spec_config(),
            advance_outcome(
                old(self).spec_store(),
                final(self).spec_store(),
                old(self).spec_config().pomodoro,
                task_id,
                now,
                now,
                r,
            ),
    {
        self.advance_cycle(task_id, now, now)
    }

    /// Completes the task's running session at `finished` and, per the auto-start
    /// policy, starts the next phase at `now`.
    #[verifier::rlimit(40)]
    fn advance_cycle(&mut self, task_id: TaskId, finished: Timestamp, now: Timestamp) -> (r: Result<
        (),
        Error,
    >)
        requires
            old(self).inv(),
        ensures
            final(self).inv(),
            final(self).spec_config() == old(self).spec_config(),
            advance_outcome(
                old(self).spec_store(),
                final(self).spec_store(),
                old(self).spec_config().pomodoro,
                task_id,
                finished,
                now,
                r,
            ),
    {
        let ghost o = self.store@;
        let mut session = match self.store.running_session_of(task_id) {
            Some(s) => s,
            None => {
                proof {
                    assert(!(exists|k: int|
                        0 <= k < o.sessions.len() && is_running_of(#[trigger] o.sessions[k], task_id)));
                }
                return Err(Error::NoRunningSession);
            },
        };
        let ghost j = session@.id@ - 1;
        proof {
            let jj = choose|jj: int|
                0 <= jj < o.sessions.len() && session@ == #[trigger] o.sessions[jj]
                    && is_running_of(session@, task_id) && forall|m: int|
                    0 <= m < jj ==> !is_running_of(#[trigger] o.sessions[m], task_id);
            assert(o.sessions[jj].id@ == jj + 1);
            assert(jj == j);
            lemma_running_index(o, task_id, j);
        }
        let completed_phase = session.phase();
        session.complete(finished);
        let history = self.store.list_sessions_for_task(task_id);
        let before = completed_focus_pomos(history.as_slice());
        let completed_focus = if completed_phase == TimerPhase::Focus {
            before.saturating_add(1)
        } else {
            before
        };
        proof {
            lemma_focus_count_of(o.sessions, task_id);
            lemma_task_count_update(o.sessions, j, session@, task_id);
        }
        let pomodoro = self.config.pomodoro();
        let next_phase = pomodoro.next_phase(completed_phase, completed_focus);
        let auto_start = pomodoro.should_auto_start(next_phase);
        let duration = pomodoro.duration_seconds(next_phase);
        if auto_start && self.store.session_count() >= MAX_ROWS {
            return Err(
                Error::Repository(
                    RepositoryError::Backend { message: String::from_str("session table is full") },
                ),
            );
        }
        match self.store.update_session(&session) {
            Ok(()) => {},
            Err(e) => return Err(Error::Repository(e)),
        }
        if auto_start {
            match self.store.create_session(task_id, next_phase, duration, now) {
                Ok(_) => {},
                Err(e) => return Err(Error::Repository(e)),
            }
        }
        proof {
            let f = self.store@;
            if auto_start {
                assert(f.sessions.drop_last() =~= o.sessions.update(j, completed_at(o.sessions[j], finished)));
            }
            lemma_advance_keeps_inv(o, f, j, finished, auto_start);
        }
        Ok(())
    }

    /// Completes a task, banking its earned pomos.
    ///
    /// Any running session is abandoned (partial time discarded), the task is marked
    /// done at `now`, and a `TaskReward` credit of the task's completed focus pomos is
    /// appended to the ledger when there are any. Returns the number of earned pomos.
    ///
    /// # Errors
    /// [`Error::TaskNotFound`], [`Error::TaskNotActive`] if the task is neither in
    /// progress nor paused, [`Error::RewardOverflow`] if the count does not fit the
    /// ledger's amount type, or a storage error when the ledger is full; nothing changes
    /// then.
    #[verifier::rlimit(40)]
    pub fn complete_task(&mut self, task_id: TaskId, now: Timestamp) -> (r: Result<u32, Error>)
        requires
            old(self).inv(),
        ensures
            final(self).inv(),
            final(self).spec_config() == old(self).spec_config(),
            ({
                let o = old(self).spec_store();
                let f = final(self).spec_store();
                let i = task_id@ - 1;
                let earned = spec_completed_pomos(o, task_id);
                let exists_ = row_exists(task_id@, o.tasks.len() as int);
                let active = exists_ && (o.tasks[i].status == TaskStatus::InProgress
                    || o.tasks[i].status == TaskStatus::Paused);
                &&& !exists_ ==> (r matches Err(Error::TaskNotFound))
                &&& exists_ && !active ==> (r matches Err(Error::TaskNotActive))
                &&& active && earned > i32::MAX ==> (r matches Err(Error::RewardOverflow))
                &&& r is Ok <==> active && earned <= i32::MAX && !(earned > 0
                    && o.transactions.len() >= MAX_ROWS)
                &&& active && earned <= i32::MAX && earned > 0 && o.transactions.len() >= MAX_ROWS
                    ==> (r matches Err(Error::Repository(_)))
                &&& r is Err ==> f == o
                &&& r matches Ok(n) ==> {
                    &&& n == earned
                    &&& f.tasks == o.tasks.update(i, moved_to(o.tasks[i], TaskStatus::Done, now))
                    &&& f.sessions == abandon_running(o.sessions, task_id, now)
                    &&& ledger_sum(f.transactions) == ledger_sum(o.transactions) + n
                    &&& n > 0 ==> f.transactions.len() == o.transactions.len() + 1
                        && f.transactions.drop_last() == o.transactions && f.transactions.last().task_id
                        == Some(task_id) && f.transactions.last().amount_pomos == n
                        && f.transactions.last().transaction_type == BankTransactionType::TaskReward
                        && f.transactions.last().note is None && f.transactions.last().created_at == now
                    &&& n == 0 ==> f.transactions == o.transactions
                    &&& f.notes == o.notes
                    &&& f.tags == o.tags
                    &&& f.links == o.links
                }
            }),
    {
        let ghost o = self.store@;
        let mut task = match self.store.get_task(task_id) {
            Some(t) => t,
            None => return Err(Error::TaskNotFound),
        };
        if !(task.status() == TaskStatus::InProgress || task.status() == TaskStatus::Paused) {
            return Err(Error::TaskNotActive);
        }
        let history = self.store.list_sessions_for_task(task_id);
        let earned = completed_focus_pomos(history.as_slice());
        proof {
            lemma_focus_count_of(o.sessions, task_id);
        }
        if earned > i32::MAX as u32 {
            return Err(Error::RewardOverflow);
        }
        let amount = earned as i32;
        if amount > 0 && self.store.transaction_count() >= MAX_ROWS {
            return Err(
                Error::Repository(
                    RepositoryError::Backend { message: String::from_str("ledger is full") },
                ),
            );
        }
        match task.apply_transition(TaskStatus::Done, now) {
            Ok(()) => {},
            Err(e) => return Err(Error::Transition(e)),
        }
        self.store.abandon_running_sessions(task_id, now);
        match self.store.update_task(&task) {
            Ok(()) => {},
            Err(e) => return Err(Error::Repository(e)),
        }
        if amount > 0 {
            match self.store.append_transaction(
                Some(task_id),
                amount,
                BankTransactionType::TaskReward,
                None,
                now,
            ) {
                Ok(txn) => {
                    proof {
                        crate::domain::bank::lemma_ledger_sum_push(o.transactions, txn@);
                    }
                },
                Err(e) => return Err(Error::Repository(e)),
            }
        }
        proof {
            broadcast use crate::domain::ids::TaskId::lemma_view_injective;

            let f = self.store@;
            assert(o.tasks[task_id@ - 1].id == task_id);
            lemma_stop_keeps_inv(o, f, task_id@ - 1, now);
        }
        Ok(earned)
    }

    /// Suspends a task in progress, abandoning its running pomo (partial time
    /// discarded).
    ///
    /// # Errors
    /// [`Error::TaskNotFound`], or [`Error::Transition`] if the task is not in progress;
    /// nothing changes then.
    pub fn pause_task(&mut self, task_id: TaskId, now: Timestamp) -> (r: Result<Task, Error>)
        requires
            old(self).inv(),
        ensures
            final(self).inv(),
            final(self).spec_config() == old(self).spec_config(),
            stop_outcome(
                old(self).spec_store(),
                final(self).spec_store(),
                task_id,
                TaskStatus::Paused,
                now,
                r,
            ),
    {
        self.stop_task(task_id, TaskStatus::Paused, now)
    }

    /// Cancels a task. Its running pomo is abandoned and its unbanked pomos are
    /// discarded (no reward); its completed sessions remain in history.
    ///
    /// # Errors
    /// [`Error::TaskNotFound`], or [`Error::Transition`] if the task is neither in
    /// progress nor paused; nothing changes then.
    pub fn cancel_task(&mut self, task_id: TaskId, now: Timestamp) -> (r: Result<Task, Error>)
        requires
            old(self).inv(),
        ensures
            final(self).inv(),
            final(self).spec_config() == old(self).spec_config(),
            stop_outcome(
                old(self).spec_store(),
                final(self).spec_store(),
                task_id,
                TaskStatus::Cancelled,
                now,
                r,
            ),
    {
        self.stop_task(task_id, TaskStatus::Cancelled, now)
    }

    /// Moves a task to `target` (paused or cancelled) and abandons its running
    /// sessions.
    fn stop_task(&mut self, task_id: TaskId, target: TaskStatus, now: Timestamp) -> (r: Result<
        Task,
        Error,
    >)
        requires
            old(self).inv(),
            target == TaskStatus::Paused || target == TaskStatus::Cancelled,
        ensures
            final(self).inv(),
            final(self).spec_config() == old(self).spec_config(),
            stop_outcome(old(self).spec_store(), final(self).spec_store(), task_id, target, now, r),
    {
        let ghost o = self.store@;
        let mut task = match self.store.get_task(task_id) {
            Some(t) => t,
            None => return Err(Error::TaskNotFound),
        };
        match task.apply_transition(target, now) {
            Ok(()) => {},
            Err(e) => return Err(Error::Transition(e)),
        }
        self.store.abandon_running_sessions(task_id, now);
        match self.store.update_task(&task) {
            Ok(()) => {},
            Err(e) => return Err(Error::Repository(e)),
        }
        proof {
            broadcast use crate::domain::ids::TaskId::lemma_view_injective;

            let f = self.store@;
            assert(o.tasks[task_id@ - 1].id == task_id);
            lemma_stop_keeps_inv(o, f, task_id@ - 1, now);
        }
        Ok(task)
    }

    /// Replaces a task's description, returning the updated task.
    ///
    /// # Errors
    /// [`Error::TaskNotFound`] if the task does not exist; nothing changes then.
    pub fn set_task_description(&mut self, task_id: TaskId, description: String) -> (r: Result<
        Task,
        Error,
    >)
        requires
            old(self).inv(),
        ensures
            final(self).inv(),
            final(self).spec_config() == old(self).spec_config(),
            ({
                let o = old(self).spec_store();
                let f = final(self).spec_store();
                let i = task_id@ - 1;
                &&& r is Ok <==> row_exists(task_id@, o.tasks.len() as int)
                &&& r is Err ==> (r matches Err(Error::TaskNotFound)) && f == o
                &&& r matches Ok(t) ==> t@ == (TaskView { description: description@, ..o.tasks[i] })
                    && f == (StoreView { tasks: o.tasks.update(i, t@), ..o })
            }),
    {
        let ghost o = self.store@;
        let mut task = match self.store.get_task(task_id) {
            Some(t) => t,
            None => return Err(Error::TaskNotFound),
        };
        task.set_description(description);
        match self.store.update_task(&task) {
            Ok(()) => {},
            Err(e) => return Err(Error::Repository(e)),
        }
        proof {
            let f = self.store@;
            let i = task_id@ - 1;
            assert forall|x: int, y: int|
                0 <= x < f.tasks.len() && 0 <= y < f.tasks.len() && (#[trigger] f.tasks[x]).status
                    == TaskStatus::InProgress && (#[trigger] f.tasks[y]).status
                    == TaskStatus::InProgress implies x == y by {
                assert(f.tasks[x].status == o.tasks[x].status);
                assert(f.tasks[y].status == o.tasks[y].status);
            }
            assert forall|k: int|
                0 <= k < f.sessions.len() && (#[trigger] f.sessions[k]).status
                    == SessionStatus::Running implies f.tasks[f.sessions[k].task_id@ - 1].status
                == TaskStatus::InProgress by {
                assert(f.tasks[f.sessions[k].task_id@ - 1].status == o.tasks[o.sessions[k].task_id@
                    - 1].status);
            }
        }
        Ok(task)
    }

    /// The phase that awaits a manual start, if the task is in progress but has no
    /// running session (because the previous phase completed with auto-start off).
    ///
    /// Never fails: the in-memory store cannot.
    pub fn pending_next_phase(&self, task_id: TaskId) -> (r: Result<Option<TimerPhase>, Error>)
        requires
            self.inv(),
        ensures
            r == Ok::<Option<TimerPhase>, Error>(
                spec_pending_next_phase(self.spec_store(), self.spec_config().pomodoro, task_id),
            ),
    {
        let ghost v = self.store@;
        let task = match self.store.get_task(task_id) {
            Some(t) => t,
            None => return Ok(None),
        };
        if task.status() != TaskStatus::InProgress {
            return Ok(None);
        }
        match self.store.running_session_of(task_id) {
            Some(s) => {
                proof {
                    let j = choose|j: int|
                        0 <= j < v.sessions.len() && s@ == #[trigger] v.sessions[j] && is_running_of(
                            s@,
                            task_id,
                        ) && forall|m: int|
                            0 <= m < j ==> !is_running_of(#[trigger] v.sessions[m], task_id);
                    lemma_running_index(v, task_id, j);
                }
                return Ok(None);
            },
            None => {
                proof {
                    assert(!(exists|k: int|
                        0 <= k < v.sessions.len() && is_running_of(#[trigger] v.sessions[k], task_id)));
                }
            },
        }
        let history = self.store.list_sessions_for_task(task_id);
        let completed_focus = completed_focus_pomos(history.as_slice());
        proof {
            lemma_focus_count_of(v.sessions, task_id);
        }
        if history.len() == 0 {
            return Ok(Some(TimerPhase::Focus));
        }
        let last = history[history.len() - 1];
        proof {
            assert(session_views(history@).last() == last@);
        }
        let next = self.config.pomodoro().next_phase(last.phase(), completed_focus);
        Ok(Some(next))
    }

    /// Starts the pending next phase for a task (used when auto-start is off).
    ///
    /// A no-op if nothing is pending (the task is not in progress, or a session already
    /// runs).
    ///
    /// # Errors
    /// A storage error when the session table is full; nothing changes then.
    pub fn start_next_phase(&mut self, task_id: TaskId, now: Timestamp) -> (r: Result<(), Error>)
        requires
            old(self).inv(),
        ensures
            final(self).inv(),
            final(self).spec_config() == old(self).spec_config(),
            ({
                let o = old(self).spec_store();
                let f = final(self).spec_store();
                let cfg = old(self).spec_config().pomodoro;
                let pending = spec_pending_next_phase(o, cfg, task_id);
                &&& pending is None ==> r is Ok && f == o
                &&& r is Err ==> f == o
                &&& pending matches Some(next) ==> {
                    &&& r is Ok <==> o.sessions.len() < MAX_ROWS
                    &&& o.sessions.len() >= MAX_ROWS ==> (r matches Err(Error::Repository(_)))
                    &&& r is Ok ==> f.sessions.len() == o.sessions.len() + 1
                        && f.sessions.drop_last() == o.sessions && is_fresh_session(
                        f.sessions.last(),
                        o.sessions.len() + 1int,
                        task_id,
                        next,
                        spec_duration(cfg, next),
                        now,
                    ) && f.tasks == o.tasks && f.transactions == o.transactions && f.notes
                        == o.notes && f.tags == o.tags && f.links == o.links
                }
            }),
    {
        let ghost o = self.store@;
        let next = match self.pending_next_phase(task_id) {
            Ok(Some(next)) => next,
            Ok(None) => return Ok(()),
            Err(e) => return Err(e),
        };
        let duration = self.config.pomodoro().duration_seconds(next);
        match self.store.create_session(task_id, next, duration, now) {
            Ok(_) => {},
            Err(e) => return Err(Error::Repository(e)),
        }
        proof {
            let f = self.store@;
            assert(f.sessions.drop_last() =~= o.sessions);
            // Nothing was running: the only task in progress is this one, and it had no
            // running session.
            assert forall|k: int| 0 <= k < o.sessions.len() implies (#[trigger] o.sessions[k]).status
                != SessionStatus::Running by {
                if o.sessions[k].status == SessionStatus::Running {
                    let ti = o.sessions[k].task_id@ - 1;
                    assert(o.tasks[ti].status == TaskStatus::InProgress);
                    assert(ti == task_id@ - 1);
                    broadcast use crate::domain::ids::TaskId::lemma_view_injective;

                    assert(o.tasks[ti].id@ == ti + 1);
                    assert(is_running_of(o.sessions[k], task_id));
                }
            }
            assert forall|k: int|
                0 <= k < f.sessions.len() && (#[trigger] f.sessions[k]).status
                    == SessionStatus::Running implies f.tasks[f.sessions[k].task_id@ - 1].status
                == TaskStatus::InProgress by {
                if k < o.sessions.len() {
                    assert(f.sessions[k] == o.sessions[k]);
                }
            }
            assert forall|k: int, l: int|
                0 <= k < f.sessions.len() && 0 <= l < f.sessions.len() && (#[trigger] f.sessions[k]).status
                    == SessionStatus::Running && (#[trigger] f.sessions[l]).status
                    == SessionStatus::Running implies k == l by {
                if k < o.sessions.len() {
                    assert(f.sessions[k] == o.sessions[k]);
                }
                if l < o.sessions.len() {
                    assert(f.sessions[l] == o.sessions[l]);
                }
            }
        }
        Ok(())
    }

    /// Catches up a timer that elapsed while the app was closed.
    ///
    /// If the active task has a running session whose configured duration has already
    /// passed, its phase is completed as if the timer had fired at the moment it expired
    /// (finished at its start plus its configured duration), and the next one is
    /// started, fresh from `now`, so time spent with the app closed is not replayed as
    /// extra phases. A no-op if nothing is active or the running timer has time left.
    ///
    /// # Errors
    /// Whatever advancing the cycle reports; nothing changes then.
    #[verifier::rlimit(40)]
    pub fn reconcile_active_timer(&mut self, now: Timestamp) -> (r: Result<(), Error>)
        requires
            old(self).inv(),
        ensures
            final(self).inv(),
            final(self).spec_config() == old(self).spec_config(),
            ({
                let o = old(self).spec_store();
                let f = final(self).spec_store();
                match expired_active_task(o, now) {
                    Some(task_id) => advance_outcome(
                        o,
                        f,
                        old(self).spec_config().pomodoro,
                        task_id,
                        spec_expires_at(o.sessions[running_index(o, task_id)->0]),
                        now,
                        r,
                    ),
                    None => r is Ok && f == o,
                }
            }),
    {
        let ghost o = self.store@;
        let active = match self.store.find_active_task() {
            Some(a) => a,
            None => return Ok(()),
        };
        let ghost ai = choose|ai: int|
            0 <= ai < o.tasks.len() && active@ == #[trigger] o.tasks[ai] && active@.status
                == TaskStatus::InProgress && forall|j: int|
                0 <= j < ai ==> (#[trigger] o.tasks[j]).status != TaskStatus::InProgress;
        proof {
            assert forall|x: int|
                0 <= x < o.tasks.len() && (#[trigger] o.tasks[x]).status == TaskStatus::InProgress
                    implies x == ai by {}
        }
        match self.store.running_session_of(active.id()) {
            Some(session) => {
                proof {
                    let j = choose|j: int|
                        0 <= j < o.sessions.len() && session@ == #[trigger] o.sessions[j]
                            && is_running_of(session@, active@.id) && forall|m: int|
                            0 <= m < j ==> !is_running_of(#[trigger] o.sessions[m], active@.id);
                    lemma_running_index(o, active@.id, j);
                }
                if session.is_expired(now) {
                    let start = session.started_at();
                    let duration = session.configured_duration_seconds();
                    proof {
                        use_type_invariant(&start);
                        use_type_invariant(&now);
                        crate::time::lemma_elapsed_instant_in_range(start, now, duration as int);
                    }
                    let expired_at = start.checked_add_seconds(duration as i64).unwrap();
                    return self.advance_cycle(active.id(), expired_at, now);
                }
                Ok(())
            },
            None => {
                proof {
                    assert(!(exists|k: int|
                        0 <= k < o.sessions.len() && is_running_of(#[trigger] o.sessions[k], active@.id)));
                }
                Ok(())
            },
        }
    }

    // --- Queries ---

    /// Lists all tasks, ordered by id.
    ///
    /// Never fails: the in-memory store cannot.
    pub fn list_tasks(&self) -> (r: Result<Vec<Task>, Error>)
        ensures
            r matches Ok(v) && v@.map_values(|t: Task| t@) == self.spec_store().tasks,
    {
        Ok(self.store.list_tasks())
    }

    /// Returns the single active (in-progress) task, if any.
    ///
    /// Never fails: the in-memory store cannot.
    #[verifier::rlimit(40)]
    pub fn active_task(&self) -> (r: Result<Option<Task>, Error>)
        requires
            self.inv(),
        ensures
            r is Ok,
            r matches Ok(None) ==> forall|i: int|
                0 <= i < self.spec_store().tasks.len() ==> (#[trigger] self.spec_store().tasks[i]).status
                    != TaskStatus::InProgress,
            r matches Ok(Some(t)) ==> t@.status == TaskStatus::InProgress && row_exists(
                t@.id@,
                self.spec_store().tasks.len() as int,
            ) && t@ == self.spec_store().tasks[t@.id@ - 1],
    {
        let ghost v = self.store@;
        match self.store.find_active_task() {
            Some(t) => {
                proof {
                    let i = choose|i: int|
                        0 <= i < v.tasks.len() && t@ == #[trigger] v.tasks[i] && t@.status
                            == TaskStatus::InProgress && forall|j: int|
                            0 <= j < i ==> (#[trigger] v.tasks[j]).status != TaskStatus::InProgress;
                    assert(v.tasks[i].id@ == i + 1);
                }
                Ok(Some(t))
            },
            None => Ok(None),
        }
    }

    /// Returns the number of completed focus pomos for a task (its measured effort).
    ///
    /// Never fails: the in-memory store cannot.
    pub fn completed_pomos(&self, task_id: TaskId) -> (r: Result<u32, Error>)
        ensures
            r matches Ok(n) && n == spec_completed_pomos(self.spec_store(), task_id),
    {
        let sessions = self.store.list_sessions_for_task(task_id);
        proof {
            lemma_focus_count_of(self.store@.sessions, task_id);
        }
        Ok(completed_focus_pomos(sessions.as_slice()))
    }

    /// Returns the current pomo bank balance: the sum of the ledger.
    ///
    /// Never fails: the in-memory store cannot.
    pub fn bank_balance(&self) -> (r: Result<i64, Error>)
        requires
            self.inv(),
        ensures
            r matches Ok(b) && b == ledger_sum(self.spec_store().transactions),
    {
        Ok(self.store.balance())
    }

    /// Returns the task's running session of any phase, if any (used by the countdown).
    ///
    /// Never fails: the in-memory store cannot.
    pub fn running_session(&self, task_id: TaskId) -> (r: Result<Option<PomodoroSession>, Error>)
        requires
            self.inv(),
        ensures
            r is Ok,
            r matches Ok(found) && (match running_index(self.spec_store(), task_id) {
                Some(j) => found matches Some(s) && s@ == self.spec_store().sessions[j],
                None => found is None,
            }),
    {
        let ghost v = self.store@;
        let found = self.store.running_session_of(task_id);
        proof {
            match found {
                Some(s) => {
                    let j = choose|j: int|
                        0 <= j < v.sessions.len() && s@ == #[trigger] v.sessions[j] && is_running_of(
                            s@,
                            task_id,
                        ) && forall|m: int|
                            0 <= m < j ==> !is_running_of(#[trigger] v.sessions[m], task_id);
                    lemma_running_index(v, task_id, j);
                },
                None => {
                    assert(!(exists|k: int|
                        0 <= k < v.sessions.len() && is_running_of(#[trigger] v.sessions[k], task_id)));
                },
            }
        }
        Ok(found)
    }
}


// --- Notes ---

/// Whether `n` can be the target of a link titled `title` written in note `except`.
pub open spec fn is_link_candidate(n: NoteView, title: Seq<char>, except: NoteId) -> bool {
    n.title == title && n.id != except
}

/// Whether `notes[k]` is, of the link candidates, the first in the listing order.
pub open spec fn is_first_candidate(
    notes: Seq<NoteView>,
    title: Seq<char>,
    except: NoteId,
    k: int,
) -> bool {
    &&& 0 <= k < notes.len()
    &&& is_link_candidate(notes[k], title, except)
    &&& forall|j: int|
        0 <= j < notes.len() && j != k && is_link_candidate(#[trigger] notes[j], title, except)
            ==> note_before(notes[k], notes[j])
}

/// The note a link titled `title` in note `except` resolves to: of the other notes with
/// that title, the first in the listing order (pinned first, then most recently
/// updated, then by id).
pub open spec fn link_target(notes: Seq<NoteView>, title: Seq<char>, except: NoteId) -> Option<
    NoteId,
> {
    if exists|k: int| is_first_candidate(notes, title, except, k) {
        Some(notes[choose|k: int| is_first_candidate(notes, title, except, k)].id)
    } else {
        None
    }
}

/// The notes that the link titles resolve to, in order; titles that resolve to no note
/// are dropped.
pub open spec fn resolve_links(notes: Seq<NoteView>, titles: Seq<Seq<char>>, except: NoteId) -> Seq<
    NoteId,
>
    decreases titles.len(),
{
    if titles.len() == 0 {
        Seq::empty()
    } else {
        let earlier = resolve_links(notes, titles.drop_last(), except);
        match link_target(notes, titles.last(), except) {
            Some(id) => earlier.push(id),
            None => earlier,
        }
    }
}

/// The outgoing links stored for note `n` among `notes`: the wiki-links of its body,
/// resolved, each once.
pub open spec fn linked_ids(notes: Seq<NoteView>, n: NoteView) -> Seq<NoteId> {
    dedup_ids(resolve_links(notes, wiki_links(n.body_markdown), n.id))
}

/// Whether, among the first `m` notes, `notes[k]` is the candidate for `title` that
/// comes first in the listing order.
spec fn first_candidate_upto(
    notes: Seq<NoteView>,
    title: Seq<char>,
    except: NoteId,
    m: int,
    k: int,
) -> bool {
    &&& 0 <= k < m
    &&& is_link_candidate(notes[k], title, except)
    &&& forall|j: int|
        0 <= j < m && j != k && is_link_candidate(#[trigger] notes[j], title, except) ==> note_before(
            notes[k],
            notes[j],
        )
}

/// Where the first `m` notes hold a candidate for `title`, one of them comes first.
proof fn lemma_first_candidate_upto(
    notes: Seq<NoteView>,
    title: Seq<char>,
    except: NoteId,
    m: int,
    k0: int,
)
    requires
        forall|i: int| 0 <= i < notes.len() ==> (#[trigger] notes[i]).id@ == i + 1,
        0 <= k0 < m <= notes.len(),
        is_link_candidate(notes[k0], title, except),
    ensures
        exists|k: int| first_candidate_upto(notes, title, except, m, k),
    decreases m,
{
    let last = m - 1;
    if exists|c: int| 0 <= c < last && is_link_candidate(#[trigger] notes[c], title, except) {
        let c = choose|c: int| 0 <= c < last && is_link_candidate(#[trigger] notes[c], title, except);
        lemma_first_candidate_upto(notes, title, except, last, c);
        let k1 = choose|k: int| first_candidate_upto(notes, title, except, last, k);
        if is_link_candidate(notes[last], title, except) {
            assert(notes[k1].id@ == k1 + 1);
            assert(notes[last].id@ == last + 1);
            lemma_note_order(notes[k1], notes[last], notes[k1]);
            if note_before(notes[last], notes[k1]) {
                assert forall|j: int|
                    0 <= j < m && j != last && is_link_candidate(#[trigger] notes[j], title, except)
                        implies note_before(notes[last], notes[j]) by {
                    if j != k1 {
                        lemma_note_order(notes[last], notes[k1], notes[j]);
                    }
                }
                assert(first_candidate_upto(notes, title, except, m, last));
            } else {
                assert(first_candidate_upto(notes, title, except, m, k1));
            }
        } else {
            assert(first_candidate_upto(notes, title, except, m, k1));
        }
    } else {
        assert(k0 == last);
        assert(first_candidate_upto(notes, title, except, m, last));
    }
}

/// A link title resolves exactly when some other note carries it, and then to such a
/// note.
proof fn lemma_link_target_found(notes: Seq<NoteView>, title: Seq<char>, except: NoteId)
    requires
        forall|i: int| 0 <= i < notes.len() ==> (#[trigger] notes[i]).id@ == i + 1,
    ensures
        link_target(notes, title, except) is Some <==> exists|k: int|
            0 <= k < notes.len() && is_link_candidate(#[trigger] notes[k], title, except),
        link_target(notes, title, except) matches Some(id) ==> exists|k: int|
            0 <= k < notes.len() && is_link_candidate(#[trigger] notes[k], title, except)
                && notes[k].id == id,
{
    if exists|k: int| 0 <= k < notes.len() && is_link_candidate(#[trigger] notes[k], title, except) {
        let k0 = choose|k: int|
            0 <= k < notes.len() && is_link_candidate(#[trigger] notes[k], title, except);
        lemma_first_candidate_upto(notes, title, except, notes.len() as int, k0);
        let k = choose|k: int| first_candidate_upto(notes, title, except, notes.len() as int, k);
        assert(is_first_candidate(notes, title, except, k));
    }
    if exists|k: int| is_first_candidate(notes, title, except, k) {
        let k = choose|k: int| is_first_candidate(notes, title, except, k);
        assert(is_link_candidate(notes[k], title, except));
    }
}

/// The titles that resolve put their notes among the resolved links.
proof fn lemma_resolve_contains(
    notes: Seq<NoteView>,
    titles: Seq<Seq<char>>,
    except: NoteId,
    i: int,
    id: NoteId,
)
    requires
        0 <= i < titles.len(),
        link_target(notes, titles[i], except) == Some(id),
    ensures
        resolve_links(notes, titles, except).contains(id),
    decreases titles.len(),
{
    let earlier = resolve_links(notes, titles.drop_last(), except);
    let all = resolve_links(notes, titles, except);
    if i == titles.len() - 1 {
        assert(all == earlier.push(id));
        assert(all[earlier.len() as int] == id);
    } else {
        assert(titles.drop_last()[i] == titles[i]);
        lemma_resolve_contains(notes, titles.drop_last(), except, i, id);
        let m = choose|m: int| 0 <= m < earlier.len() && #[trigger] earlier[m] == id;
        assert(all[m] == id);
    }
}

/// Every resolved link is what one of the titles resolves to.
proof fn lemma_resolve_from_titles(
    notes: Seq<NoteView>,
    titles: Seq<Seq<char>>,
    except: NoteId,
    x: NoteId,
)
    requires
        resolve_links(notes, titles, except).contains(x),
    ensures
        exists|i: int| 0 <= i < titles.len() && link_target(notes, #[trigger] titles[i], except) == Some(
            x,
        ),
    decreases titles.len(),
{
    let earlier = resolve_links(notes, titles.drop_last(), except);
    let all = resolve_links(notes, titles, except);
    let last = titles.len() - 1;
    if link_target(notes, titles[last], except) == Some(x) {
    } else {
        let m = choose|m: int| 0 <= m < all.len() && #[trigger] all[m] == x;
        assert(m < earlier.len() && earlier[m] == x);
        lemma_resolve_from_titles(notes, titles.drop_last(), except, x);
        let i = choose|i: int|
            0 <= i < titles.drop_last().len() && link_target(notes, #[trigger] titles.drop_last()[i], except)
                == Some(x);
        assert(titles[i] == titles.drop_last()[i]);
    }
}

/// Dropping repeated ids keeps every id.
proof fn lemma_dedup_contains(ids: Seq<NoteId>, x: NoteId)
    ensures
        dedup_ids(ids).contains(x) <==> ids.contains(x),
    decreases ids.len(),
{
    broadcast use crate::domain::ids::NoteId::lemma_view_injective;

    if ids.len() > 0 {
        let init = ids.drop_last();
        lemma_dedup_contains(init, x);
        let earlier = dedup_ids(init);
        let d = dedup_ids(ids);
        if ids.contains(x) {
            let k = choose|k: int| 0 <= k < ids.len() && #[trigger] ids[k] == x;
            if k < init.len() {
                assert(init[k] == x);
            }
        }
        if init.contains(x) {
            let k = choose|k: int| 0 <= k < init.len() && #[trigger] init[k] == x;
            assert(ids[k] == x);
        }
        if exists|m: int| 0 <= m < earlier.len() && (#[trigger] earlier[m])@ == ids.last()@ {
            let m = choose|m: int| 0 <= m < earlier.len() && (#[trigger] earlier[m])@ == ids.last()@;
            assert(earlier[m] == ids.last());
        } else {
            assert(d == earlier.push(ids.last()));
            assert(d[earlier.len() as int] == ids.last());
            if d.contains(x) {
                let k = choose|k: int| 0 <= k < d.len() && #[trigger] d[k] == x;
                if k < earlier.len() {
                    assert(earlier[k] == x);
                }
            }
            if earlier.contains(x) {
                let k = choose|k: int| 0 <= k < earlier.len() && #[trigger] earlier[k] == x;
                assert(d[k] == x);
            }
        }
        assert(ids[ids.len() - 1] == ids.last());
    }
}

/// A saved note's outgoing links follow the wiki-links of its body: every wiki-link
/// title that another note carries is stored, pointing at a note with that title (the
/// first such in the listing order), whatever its position in the body; and every
/// stored link points at another note whose title is one of the body's wiki-links.
pub proof fn lemma_saved_links_follow_the_wiki_links(
    notes: Seq<NoteView>,
    n: NoteView,
    title: Seq<char>,
    x: NoteId,
)
    requires
        forall|i: int| 0 <= i < notes.len() ==> (#[trigger] notes[i]).id@ == i + 1,
    ensures
        wiki_links(n.body_markdown).contains(title) && (exists|k: int|
            0 <= k < notes.len() && is_link_candidate(#[trigger] notes[k], title, n.id))
            ==> (link_target(notes, title, n.id) matches Some(id) && linked_ids(notes, n).contains(id)
            && (exists|k: int|
            0 <= k < notes.len() && is_link_candidate(#[trigger] notes[k], title, n.id) && notes[k].id
                == id)),
        linked_ids(notes, n).contains(x) ==> exists|k: int|
            0 <= k < notes.len() && (#[trigger] notes[k]).id == x && x != n.id && wiki_links(
                n.body_markdown,
            ).contains(notes[k].title),
{
    let titles = wiki_links(n.body_markdown);
    let resolved = resolve_links(notes, titles, n.id);
    lemma_link_target_found(notes, title, n.id);
    if titles.contains(title) && link_target(notes, title, n.id) is Some {
        let i = choose|i: int| 0 <= i < titles.len() && #[trigger] titles[i] == title;
        let id = link_target(notes, title, n.id)->0;
        lemma_resolve_contains(notes, titles, n.id, i, id);
        lemma_dedup_contains(resolved, id);
    }
    if linked_ids(notes, n).contains(x) {
        lemma_dedup_contains(resolved, x);
        lemma_resolve_from_titles(notes, titles, n.id, x);
        let i = choose|i: int| 0 <= i < titles.len() && link_target(notes, #[trigger] titles[i], n.id)
            == Some(x);
        lemma_link_target_found(notes, titles[i], n.id);
        let k = choose|k: int|
            0 <= k < notes.len() && is_link_candidate(#[trigger] notes[k], titles[i], n.id)
                && notes[k].id == x;
        assert(titles[i] == notes[k].title);
    }
}

/// Changing only the notes, their tags and their links keeps the workflow invariant.
proof fn lemma_notes_change_keeps_inv(before: StoreView, after: StoreView)
    requires
        workflow_inv(before),
        store_view_wf(after),
        after.tasks == before.tasks,
        after.sessions == before.sessions,
        after.transactions == before.transactions,
    ensures
        workflow_inv(after),
{
}

/// Backlinks name existing notes.
proof fn lemma_backlinks_exist(v: StoreView, id: NoteId, upto: int)
    requires
        store_view_wf(v),
        0 <= upto <= v.notes.len(),
    ensures
        forall|m: int|
            0 <= m < backlinks_of(v, id, upto).len() ==> row_exists(
                (#[trigger] backlinks_of(v, id, upto)[m])@,
                v.notes.len() as int,
            ),
    decreases upto,
{
    if upto > 0 {
        lemma_backlinks_exist(v, id, upto - 1);
        let earlier = backlinks_of(v, id, upto - 1);
        let all = backlinks_of(v, id, upto);
        assert(v.notes[upto - 1].id@ == upto);
        assert forall|m: int| 0 <= m < all.len() implies row_exists(
            (#[trigger] all[m])@,
            v.notes.len() as int,
        ) by {
            if m < earlier.len() {
                assert(all[m] == earlier[m]);
            }
        }
    }
}

/// The first link candidate of a listing is the link target.
proof fn lemma_first_in_listing(
    listing: Seq<NoteView>,
    notes: Seq<NoteView>,
    keep: spec_fn(NoteView) -> bool,
    title: Seq<char>,
    except: NoteId,
    k: int,
)
    requires
        is_listing(listing, notes, keep),
        forall|n: NoteView| #[trigger] keep(n),
        forall|i: int| 0 <= i < notes.len() ==> (#[trigger] notes[i]).id@ == i + 1,
        0 <= k < listing.len(),
        is_link_candidate(listing[k], title, except),
        forall|j: int| 0 <= j < k ==> !is_link_candidate(#[trigger] listing[j], title, except),
    ensures
        link_target(notes, title, except) == Some(listing[k].id),
{
    assert(keep(listing[k]));
    let k0 = choose|m: int| 0 <= m < notes.len() && notes[m] == listing[k];
    assert forall|j: int|
        0 <= j < notes.len() && j != k0 && is_link_candidate(
            #[trigger] notes[j],
            title,
            except,
        ) implies note_before(notes[k0], notes[j]) by {
        assert(keep(notes[j]));
        assert(listing.contains(notes[j]));
        let jl = choose|m: int| 0 <= m < listing.len() && listing[m] == notes[j];
        assert(notes[j].id@ != notes[k0].id@);
        if jl < k {
            assert(!is_link_candidate(listing[jl], title, except));
        }
        assert(jl != k);
    }
    assert(is_first_candidate(notes, title, except, k0));
    let c = choose|c: int| is_first_candidate(notes, title, except, c);
    if c != k0 {
        lemma_note_order(notes[c], notes[k0], notes[c]);
    }
}

/// A listing without link candidates means no link target.
proof fn lemma_none_in_listing(
    listing: Seq<NoteView>,
    notes: Seq<NoteView>,
    keep: spec_fn(NoteView) -> bool,
    title: Seq<char>,
    except: NoteId,
)
    requires
        is_listing(listing, notes, keep),
        forall|n: NoteView| #[trigger] keep(n),
        forall|j: int| 0 <= j < listing.len() ==> !is_link_candidate(#[trigger] listing[j], title, except),
    ensures
        link_target(notes, title, except) is None,
{
    if exists|k: int| is_first_candidate(notes, title, except, k) {
        let k = choose|k: int| is_first_candidate(notes, title, except, k);
        assert(keep(notes[k]));
        assert(listing.contains(notes[k]));
        let jl = choose|m: int| 0 <= m < listing.len() && listing[m] == notes[k];
        assert(!is_link_candidate(listing[jl], title, except));
    }
}

/// The end of the first line of `s` (the index of its first `'\n'`, or its length),
/// searching from `from`.
pub open spec fn line_end(s: Seq<char>, from: int) -> int
    decreases s.len() - from,
{
    if from < 0 || from >= s.len() || s[from] == '\n' {
        from
    } else {
        line_end(s, from + 1)
    }
}

/// The first line of `s` that holds more than whitespace, trimmed; empty when every
/// line is blank.
pub open spec fn first_filled_line(s: Seq<char>) -> Seq<char>
    decreases s.len(),
{
    let end = line_end(s, 0);
    let line = trim(s.take(end));
    if line.len() > 0 || end >= s.len() {
        line
    } else {
        proof {
            lemma_line_end_bounds(s, 0);
        }
        first_filled_line(s.skip(end + 1))
    }
}

/// The longest title a quick jot gets, in characters.
pub const QUICK_JOT_TITLE_MAX: usize = 80;

/// The title of a quick jot: its first non-blank line, trimmed and cut to
/// [`QUICK_JOT_TITLE_MAX`] characters, or `"Quick note"` if every line is blank.
pub open spec fn quick_jot_title_of(text: Seq<char>) -> Seq<char> {
    let line = first_filled_line(text);
    if line.len() == 0 {
        "Quick note"@
    } else if line.len() <= QUICK_JOT_TITLE_MAX {
        line
    } else {
        line.take(QUICK_JOT_TITLE_MAX as int)
    }
}

/// The end of a line lies between where the search starts and the end of the text.
pub proof fn lemma_line_end_bounds(s: Seq<char>, from: int)
    requires
        0 <= from <= s.len(),
    ensures
        from <= line_end(s, from) <= s.len(),
    decreases s.len() - from,
{
    if from < s.len() && s[from] != '\n' {
        lemma_line_end_bounds(s, from + 1);
    }
}

/// Derives a note title from quick-jot text: its first non-blank line (trimmed and
/// truncated), or `"Quick note"` if there is none.
fn quick_jot_title(text: &str) -> (r: String)
    ensures
        r@ == quick_jot_title_of(text@),
{
    let chars = crate::text::chars_of(text);
    let mut start: usize = 0;
    let mut line: Vec<char> = Vec::new();
    let mut lo: usize = 0;
    let mut hi: usize = 0;
    proof {
        assert(chars@.skip(0) =~= chars@);
    }
    loop
        invariant
            start <= chars@.len(),
            first_filled_line(text@) == first_filled_line(chars@.skip(start as int)),
            chars@ == text@,
        ensures
            lo <= hi <= line@.len(),
            line@.subrange(lo as int, hi as int) == first_filled_line(text@),
        decreases chars@.len() - start,
    {
        let ghost rest = chars@.skip(start as int);
        let mut end: usize = start;
        while end < chars.len() && chars[end] != '\n'
            invariant
                start <= end <= chars@.len(),
                rest == chars@.skip(start as int),
                line_end(rest, 0) == line_end(rest, end - start),
            decreases chars.len() - end,
        {
            assert(rest[end - start] == chars@[end as int]);
            end = end + 1;
        }
        proof {
            if end < chars@.len() {
                assert(rest[end - start] == chars@[end as int]);
            }
            assert(line_end(rest, end - start) == end - start);
        }
        line = Vec::new();
        let mut p: usize = start;
        while p < end
            invariant
                start <= p <= end <= chars@.len(),
                line@ == chars@.subrange(start as int, p as int),
            decreases end - p,
        {
            line.push(chars[p]);
            p = p + 1;
            proof {
                assert(line@ =~= chars@.subrange(start as int, p as int));
            }
        }
        proof {
            assert(line@ =~= rest.take(end - start));
        }
        let bounds = crate::text::trim_bounds(&line);
        lo = bounds.0;
        hi = bounds.1;
        if lo < hi || end >= chars.len() {
            break;
        }
        proof {
            assert(rest.skip(end - start + 1) =~= chars@.skip(end + 1));
        }
        start = end + 1;
    }
    if lo == hi {
        let r = String::from_str("Quick note");
        proof {
            reveal_strlit("Quick note");
        }
        r
    } else {
        let cut = if hi - lo > QUICK_JOT_TITLE_MAX {
            lo + QUICK_JOT_TITLE_MAX
        } else {
            hi
        };
        let r = crate::text::string_from_range(&line, lo, cut);
        proof {
            if hi - lo > QUICK_JOT_TITLE_MAX {
                assert(r@ =~= line@.subrange(lo as int, hi as int).take(QUICK_JOT_TITLE_MAX as int));
            }
        }
        r
    }
}

impl TaskService {
    /// Resolves the wiki-links in `note`'s body against the stored notes and stores
    /// them as the note's outgoing links.
    fn update_links_for(&mut self, note: &Note) -> (r: Result<(), Error>)
        requires
            old(self).inv(),
            row_exists(note@.id@, old(self).spec_store().notes.len() as int),
            old(self).spec_store().notes[note@.id@ - 1] == note@,
        ensures
            final(self).inv(),
            r is Ok,
            final(self).spec_config() == old(self).spec_config(),
            final(self).spec_store() == (StoreView {
                links: old(self).spec_store().links.update(
                    note@.id@ - 1,
                    linked_ids(old(self).spec_store().notes, note@),
                ),
                ..old(self).spec_store()
            }),
    {
        broadcast use crate::domain::ids::NoteId::lemma_view_injective;

        let ghost v = self.store@;
        let targets = extract_links(note.body_markdown());
        let ghost titles = strings_view(targets@);
        let mut ids: Vec<NoteId> = Vec::new();
        if targets.len() > 0 {
            let all = self.store.list_notes();
            let ghost listing = note_views(all@);
            let mut i: usize = 0;
            while i < targets.len()
                invariant
                    i <= targets@.len(),
                    self.store@ == v,
                    store_view_wf(v),
                    titles == strings_view(targets@),
                    is_listing(listing, v.notes, |n: NoteView| true),
                    listing == note_views(all@),
                    ids@ == resolve_links(v.notes, titles.take(i as int), note@.id),
                    forall|m: int| 0 <= m < ids@.len() ==> row_exists((#[trigger] ids@[m])@, v.notes.len() as int),
                decreases targets.len() - i,
            {
                let mut found: Option<NoteId> = None;
                let mut k: usize = 0;
                while k < all.len()
                    invariant_except_break
                        found is None,
                    invariant
                        k <= all@.len(),
                        i < targets@.len(),
                        titles == strings_view(targets@),
                        forall|j: int| 0 <= j < k ==> !is_link_candidate(#[trigger] note_views(all@)[j], titles[i as int], note@.id),
                    ensures
                        k <= all@.len(),
                        forall|j: int| 0 <= j < k ==> !is_link_candidate(#[trigger] note_views(all@)[j], titles[i as int], note@.id),
                        found matches Some(id) ==> k < all@.len() && id == all@[k as int]@.id
                            && is_link_candidate(note_views(all@)[k as int], titles[i as int], note@.id),
                        found is None ==> k == all@.len(),
                    decreases all.len() - k,
                {
                    proof {
                        assert(note_views(all@)[k as int] == all@[k as int]@);
                        assert(titles[i as int] == targets@[i as int]@);
                    }
                    if all[k].has_title(&targets[i]) && all[k].id().value() != note.id().value() {
                        found = Some(all[k].id());
                        break;
                    }
                    proof {
                        NoteId::lemma_view_injective(all@[k as int]@.id, note@.id);
                    }
                    k = k + 1;
                }
                proof {
                    assert(titles.take(i + 1).drop_last() =~= titles.take(i as int));
                    assert(titles.take(i + 1).last() == titles[i as int]);
                    let keep = |n: NoteView| true;
                    match found {
                        Some(id) => {
                            lemma_first_in_listing(listing, v.notes, keep, titles[i as int], note@.id, k as int);
                            assert(v.notes.contains(listing[k as int]));
                            let m = choose|m: int| 0 <= m < v.notes.len() && v.notes[m] == listing[k as int];
                            assert(v.notes[m].id@ == m + 1);
                        },
                        None => {
                            lemma_none_in_listing(listing, v.notes, keep, titles[i as int], note@.id);
                        },
                    }
                }
                if let Some(id) = found {
                    ids.push(id);
                }
                i = i + 1;
            }
            proof {
                assert(titles.take(i as int) =~= titles);
            }
        } else {
            proof {
                assert(titles =~= Seq::<Seq<char>>::empty());
            }
        }
        let linked = self.store.set_note_links(note.id(), ids.as_slice());
        proof {
            assert(linked is Ok);
        }
        Ok(())
    }

    /// Creates a new standalone note.
    ///
    /// # Errors
    /// Returns a storage error when the note table is full; nothing changes then.
    pub fn create_note(&mut self, title: &str, body_markdown: &str, now: Timestamp) -> (r: Result<
        Note,
        Error,
    >)
        requires
            old(self).inv(),
        ensures
            final(self).inv(),
            final(self).spec_config() == old(self).spec_config(),
            r is Ok <==> old(self).spec_store().notes.len() < MAX_ROWS,
            r matches Ok(n) ==> {
                let old_v = old(self).spec_store();
                &&& n@.id@ == old_v.notes.len() + 1
                &&& n@ == (NoteView {
                    id: n@.id,
                    title: title@,
                    body_markdown: body_markdown@,
                    task_id: None,
                    pinned: false,
                    archived: false,
                    created_at: now,
                    updated_at: now,
                })
                &&& final(self).spec_store() == (StoreView {
                    notes: old_v.notes.push(n@),
                    tags: old_v.tags.push(Seq::empty()),
                    links: old_v.links.push(linked_ids(old_v.notes.push(n@), n@)),
                    ..old_v
                })
            },
            r matches Err(e) ==> e matches Error::Repository(RepositoryError::Backend { .. })
                && final(self).spec_store() == old(self).spec_store(),
    {
        self.add_note(title, body_markdown, None, now)
    }

    /// Inserts a note and stores its outgoing links.
    fn add_note(&mut self, title: &str, body_markdown: &str, task_id: Option<TaskId>, now: Timestamp) -> (r: Result<
        Note,
        Error,
    >)
        requires
            old(self).inv(),
        ensures
            final(self).inv(),
            final(self).spec_config() == old(self).spec_config(),
            r is Ok <==> (task_id matches Some(t) ==> row_exists(
                t@,
                old(self).spec_store().tasks.len() as int,
            )) && old(self).spec_store().notes.len() < MAX_ROWS,
            r matches Ok(n) ==> {
                let old_v = old(self).spec_store();
                &&& n@.id@ == old_v.notes.len() + 1
                &&& n@ == (NoteView {
                    id: n@.id,
                    title: title@,
                    body_markdown: body_markdown@,
                    task_id,
                    pinned: false,
                    archived: false,
                    created_at: now,
                    updated_at: now,
                })
                &&& final(self).spec_store() == (StoreView {
                    notes: old_v.notes.push(n@),
                    tags: old_v.tags.push(Seq::empty()),
                    links: old_v.links.push(linked_ids(old_v.notes.push(n@), n@)),
                    ..old_v
                })
            },
            r matches Err(e) ==> final(self).spec_store() == old(self).spec_store() && if task_id matches Some(t)
                && !row_exists(t@, old(self).spec_store().tasks.len() as int) {
                e == Error::Repository(RepositoryError::NotFound)
            } else {
                e matches Error::Repository(RepositoryError::Backend { .. })
            },
    {
        let ghost v0 = self.store@;
        match self.store.create_note(title, body_markdown, task_id, now) {
            Ok(note) => {
                proof {
                    lemma_notes_change_keeps_inv(v0, self.store@);
                    assert(self.store@.notes[note@.id@ - 1] == note@);
                }
                let ghost v1 = self.store@;
                let linked = self.update_links_for(&note);
                proof {
                    assert(linked is Ok);
                    assert(v1.links.update(note@.id@ - 1, linked_ids(v1.notes, note@)) =~= v0.links.push(
                        linked_ids(v1.notes, note@),
                    ));
                }
                Ok(note)
            },
            Err(e) => Err(Error::Repository(e)),
        }
    }

    /// Lists all notes (pinned first, then most recently updated, then by id).
    ///
    /// Never fails: the in-memory store cannot.
    pub fn list_notes(&self) -> (r: Result<Vec<Note>, Error>)
        requires
            self.inv(),
        ensures
            r matches Ok(v) && is_listing(note_views(v@), self.spec_store().notes, |n: NoteView| true),
    {
        Ok(self.store.list_notes())
    }

    /// Searches notes by title/body substring (ignoring ASCII case), in the listing
    /// order.
    ///
    /// Never fails: the in-memory store cannot.
    pub fn search_notes(&self, query: &str) -> (r: Result<Vec<Note>, Error>)
        requires
            self.inv(),
        ensures
            r matches Ok(v) && is_listing(
                note_views(v@),
                self.spec_store().notes,
                |n: NoteView| search_matches(n, query@),
            ),
    {
        Ok(self.store.search_notes(query))
    }

    /// Updates a note's title and body, bumping its updated-at time, and re-resolves its
    /// wiki-links.
    ///
    /// # Errors
    /// Returns [`Error::NoteNotFound`] if the note does not exist; nothing changes then.
    pub fn save_note_content(
        &mut self,
        id: NoteId,
        title: String,
        body_markdown: String,
        now: Timestamp,
    ) -> (r: Result<Note, Error>)
        requires
            old(self).inv(),
        ensures
            final(self).inv(),
            final(self).spec_config() == old(self).spec_config(),
            r is Ok <==> row_exists(id@, old(self).spec_store().notes.len() as int),
            r matches Ok(n) ==> {
                let old_v = old(self).spec_store();
                let notes = old_v.notes.update(id@ - 1, n@);
                &&& n@ == (NoteView {
                    title: title@,
                    body_markdown: body_markdown@,
                    updated_at: now,
                    ..old_v.notes[id@ - 1]
                })
                &&& final(self).spec_store() == (StoreView {
                    notes,
                    links: old_v.links.update(id@ - 1, linked_ids(notes, n@)),
                    ..old_v
                })
            },
            r matches Err(e) ==> e == Error::NoteNotFound && final(self).spec_store() == old(
                self,
            ).spec_store(),
    {
        let mut note = match self.store.get_note(id) {
            Some(n) => n,
            None => {
                return Err(Error::NoteNotFound);
            },
        };
        note.set_title(title);
        note.set_body(body_markdown);
        note.touch(now);
        let ghost v0 = self.store@;
        let updated = self.store.update_note(&note);
        proof {
            assert(v0.notes[id@ - 1].id@ == id@);
            assert(updated is Ok);
            lemma_notes_change_keeps_inv(v0, self.store@);
        }
        let linked = self.update_links_for(&note);
        proof {
            assert(linked is Ok);
        }
        Ok(note)
    }

    /// Creates a note attached to a task (the quick-jot bridge). The first line becomes
    /// the title; the whole text is the body.
    ///
    /// # Errors
    /// Returns a storage error if the task does not exist ([`RepositoryError::NotFound`])
    /// or the note table is full; nothing changes then.
    pub fn quick_jot(&mut self, task_id: TaskId, text: &str, now: Timestamp) -> (r: Result<
        Note,
        Error,
    >)
        requires
            old(self).inv(),
        ensures
            final(self).inv(),
            final(self).spec_config() == old(self).spec_config(),
            r is Ok <==> row_exists(task_id@, old(self).spec_store().tasks.len() as int)
                && old(self).spec_store().notes.len() < MAX_ROWS,
            r matches Ok(n) ==> {
                let old_v = old(self).spec_store();
                &&& n@.id@ == old_v.notes.len() + 1
                &&& n@ == (NoteView {
                    id: n@.id,
                    title: quick_jot_title_of(text@),
                    body_markdown: text@,
                    task_id: Some(task_id),
                    pinned: false,
                    archived: false,
                    created_at: now,
                    updated_at: now,
                })
                &&& final(self).spec_store() == (StoreView {
                    notes: old_v.notes.push(n@),
                    tags: old_v.tags.push(Seq::empty()),
                    links: old_v.links.push(linked_ids(old_v.notes.push(n@), n@)),
                    ..old_v
                })
            },
            r matches Err(e) ==> final(self).spec_store() == old(self).spec_store() && if !row_exists(
                task_id@,
                old(self).spec_store().tasks.len() as int,
            ) {
                e == Error::Repository(RepositoryError::NotFound)
            } else {
                e matches Error::Repository(RepositoryError::Backend { .. })
            },
    {
        let title = quick_jot_title(text);
        self.add_note(title.as_str(), text, Some(task_id), now)
    }

    /// Returns the notes attached to a task (its jots), newest first.
    ///
    /// Never fails: the in-memory store cannot.
    pub fn task_notes(&self, task_id: TaskId) -> (r: Result<Vec<Note>, Error>)
        requires
            self.inv(),
        ensures
            r matches Ok(v) && note_views(v@) == notes_of_task_newest_first(
                self.spec_store().notes,
                task_id,
            ),
    {
        Ok(self.store.list_notes_for_task(task_id))
    }

    /// Returns the notes that link to the given note (its backlinks), by ascending id.
    ///
    /// Never fails: the in-memory store cannot.
    pub fn note_backlinks(&self, id: NoteId) -> (r: Result<Vec<Note>, Error>)
        requires
            self.inv(),
        ensures
            r matches Ok(v) && note_views(v@) == backlinks_of(
                self.spec_store(),
                id,
                self.spec_store().notes.len() as int,
            ).map_values(|b: NoteId| self.spec_store().notes[b@ - 1]),
    {
        let ghost v = self.store@;
        let ids = self.store.backlinks(id);
        proof {
            lemma_backlinks_exist(v, id, v.notes.len() as int);
            assert(note_views(Seq::<Note>::empty()) =~= ids@.take(0).map_values(
                |b: NoteId| v.notes[b@ - 1],
            ));
        }
        let mut notes: Vec<Note> = Vec::new();
        let mut i: usize = 0;
        while i < ids.len()
            invariant
                self.store@ == v,
                self.store.wf(),
                i <= ids@.len(),
                ids@ == backlinks_of(v, id, v.notes.len() as int),
                forall|m: int| 0 <= m < ids@.len() ==> row_exists((#[trigger] ids@[m])@, v.notes.len() as int),
                note_views(notes@) == ids@.take(i as int).map_values(|b: NoteId| v.notes[b@ - 1]),
            decreases ids.len() - i,
        {
            let ghost prev = notes@;
            proof {
                assert(row_exists(ids@[i as int]@, v.notes.len() as int));
            }
            match self.store.get_note(ids[i]) {
                Some(n) => {
                    notes.push(n);
                    proof {
                        assert(note_views(notes@) =~= note_views(prev).push(n@));
                    }
                },
                None => {},
            }
            proof {
                let f = |b: NoteId| v.notes[b@ - 1];
                assert(ids@.take(i + 1) =~= ids@.take(i as int).push(ids@[i as int]));
                assert(ids@.take(i + 1).map_values(f) =~= ids@.take(i as int).map_values(f).push(
                    f(ids@[i as int]),
                ));
                assert(note_views(notes@) =~= ids@.take(i + 1).map_values(
                    |b: NoteId| v.notes[b@ - 1],
                ));
            }
            i = i + 1;
        }
        proof {
            assert(ids@.take(i as int) =~= ids@);
        }
        Ok(notes)
    }

    /// Sets a note's pinned flag, bumping its updated-at time.
    ///
    /// # Errors
    /// Returns [`Error::NoteNotFound`] if the note does not exist; nothing changes then.
    pub fn set_note_pinned(&mut self, id: NoteId, pinned: bool, now: Timestamp) -> (r: Result<
        (),
        Error,
    >)
        requires
            old(self).inv(),
        ensures
            final(self).inv(),
            final(self).spec_config() == old(self).spec_config(),
            r is Ok <==> row_exists(id@, old(self).spec_store().notes.len() as int),
            r is Ok ==> final(self).spec_store() == (StoreView {
                notes: old(self).spec_store().notes.update(
                    id@ - 1,
                    NoteView { pinned, updated_at: now, ..old(self).spec_store().notes[id@ - 1] },
                ),
                ..old(self).spec_store()
            }),
            r matches Err(e) ==> e == Error::NoteNotFound && final(self).spec_store() == old(
                self,
            ).spec_store(),
    {
        let mut note = match self.store.get_note(id) {
            Some(n) => n,
            None => {
                return Err(Error::NoteNotFound);
            },
        };
        note.set_pinned(pinned);
        note.touch(now);
        let ghost v0 = self.store@;
        let updated = self.store.update_note(&note);
        proof {
            assert(v0.notes[id@ - 1].id@ == id@);
            assert(updated is Ok);
            lemma_notes_change_keeps_inv(v0, self.store@);
        }
        Ok(())
    }

    /// Sets a note's archived flag, bumping its updated-at time.
    ///
    /// # Errors
    /// Returns [`Error::NoteNotFound`] if the note does not exist; nothing changes then.
    pub fn set_note_archived(&mut self, id: NoteId, archived: bool, now: Timestamp) -> (r: Result<
        (),
        Error,
    >)
        requires
            old(self).inv(),
        ensures
            final(self).inv(),
            final(self).spec_config() == old(self).spec_config(),
            r is Ok <==> row_exists(id@, old(self).spec_store().notes.len() as int),
            r is Ok ==> final(self).spec_store() == (StoreView {
                notes: old(self).spec_store().notes.update(
                    id@ - 1,
                    NoteView { archived, updated_at: now, ..old(self).spec_store().notes[id@ - 1] },
                ),
                ..old(self).spec_store()
            }),
            r matches Err(e) ==> e == Error::NoteNotFound && final(self).spec_store() == old(
                self,
            ).spec_store(),
    {
        let mut note = match self.store.get_note(id) {
            Some(n) => n,
            None => {
                return Err(Error::NoteNotFound);
            },
        };
        note.set_archived(archived);
        note.touch(now);
        let ghost v0 = self.store@;
        let updated = self.store.update_note(&note);
        proof {
            assert(v0.notes[id@ - 1].id@ == id@);
            assert(updated is Ok);
            lemma_notes_change_keeps_inv(v0, self.store@);
        }
        Ok(())
    }

    /// Returns a note's tags, sorted by code point (none for a note that does not exist).
    ///
    /// Never fails: the in-memory store cannot.
    pub fn note_tags(&self, id: NoteId) -> (r: Result<Vec<String>, Error>)
        requires
            self.inv(),
        ensures
            r matches Ok(v) && (if row_exists(id@, self.spec_store().notes.len() as int) {
                strings_view(v@) == self.spec_store().tags[id@ - 1]
            } else {
                v@.len() == 0
            }),
    {
        Ok(self.store.note_tags(id))
    }

    /// Replaces a note's tags; they are stored sorted and without duplicates.
    ///
    /// # Errors
    /// Returns a storage error ([`RepositoryError::NotFound`]) if the note does not exist
    /// and tags are given; nothing changes then.
    pub fn set_note_tags(&mut self, id: NoteId, tags: &[String]) -> (r: Result<(), Error>)
        requires
            old(self).inv(),
        ensures
            final(self).inv(),
            final(self).spec_config() == old(self).spec_config(),
            r is Ok <==> row_exists(id@, old(self).spec_store().notes.len() as int) || tags@.len() == 0,
            r is Ok && row_exists(id@, old(self).spec_store().notes.len() as int) ==> {
                let stored = final(self).spec_store().tags[id@ - 1];
                &&& tags_sorted(stored)
                &&& forall|t: Seq<char>| #[trigger] stored.contains(t) <==> strings_view(tags@).contains(t)
                &&& final(self).spec_store() == (StoreView {
                    tags: old(self).spec_store().tags.update(id@ - 1, stored),
                    ..old(self).spec_store()
                })
            },
            r is Ok && !row_exists(id@, old(self).spec_store().notes.len() as int)
                ==> final(self).spec_store() == old(self).spec_store(),
            r matches Err(e) ==> e == Error::Repository(RepositoryError::NotFound)
                && final(self).spec_store() == old(self).spec_store(),
    {
        let ghost v0 = self.store@;
        match self.store.set_note_tags(id, tags) {
            Ok(()) => {
                proof {
                    lemma_notes_change_keeps_inv(v0, self.store@);
                }
                Ok(())
            },
            Err(e) => Err(Error::Repository(e)),
        }
    }
}

} // verus!
