//! Pomodoro sessions: a single timer run bound to a task.

use vstd::prelude::*;

use crate::domain::ids::{PomodoroSessionId, TaskId};
use crate::time::{elapsed_seconds, seconds_between, Timestamp};

verus! {

/// Which phase of the Pomodoro cycle a session represents.
#[derive(Clone, Copy, Debug, PartialEq, Eq, Hash, Structural)]
pub enum TimerPhase {
    /// A focus interval — the only phase that counts toward task reward.
    Focus,
    /// A short break between focus intervals.
    ShortBreak,
    /// A longer break after a configured number of focus intervals.
    LongBreak,
}

impl TimerPhase {
    /// Returns `true` if effort in this phase counts toward task reward.
    pub fn is_effort(self) -> (r: bool)
        ensures
            r == (self == TimerPhase::Focus),
    {
        match self {
            TimerPhase::Focus => true,
            _ => false,
        }
    }
}

/// Lifecycle of a single [`PomodoroSession`].
#[derive(Clone, Copy, Debug, PartialEq, Eq, Hash, Structural)]
pub enum SessionStatus {
    /// The timer is currently running.
    Running,
    /// The phase ran to completion (its full configured duration elapsed).
    Completed,
    /// The phase was abandoned before completing; its partial time is discarded.
    Abandoned,
}

/// The abstract contents of a [`PomodoroSession`].
pub ghost struct SessionView {
    pub id: PomodoroSessionId,
    pub task_id: TaskId,
    pub phase: TimerPhase,
    pub status: SessionStatus,
    pub configured_duration_seconds: u32,
    pub started_at: Timestamp,
    pub finished_at: Option<Timestamp>,
}

/// Seconds left of a session's configured duration as of `now` (negative once past).
pub open spec fn spec_remaining_seconds(s: SessionView, now: Timestamp) -> int {
    s.configured_duration_seconds - seconds_between(s.started_at, now)
}

/// The instant a session's configured duration runs out: its start plus that many
/// seconds.
pub open spec fn spec_expires_at(s: SessionView) -> Timestamp {
    s.started_at.spec_add_seconds(s.configured_duration_seconds as int)
}

/// A single timer session bound to a task.
///
/// "Banked" status is tracked via the ledger, not on the session, so a completed focus
/// session cannot be double-counted.
#[derive(Clone, Copy, Debug, PartialEq, Eq)]
pub struct PomodoroSession {
    id: PomodoroSessionId,
    task_id: TaskId,
    phase: TimerPhase,
    status: SessionStatus,
    configured_duration_seconds: u32,
    started_at: Timestamp,
    finished_at: Option<Timestamp>,
}

impl View for PomodoroSession {
    type V = SessionView;

    closed spec fn view(&self) -> SessionView {
        SessionView {
            id: self.id,
            task_id: self.task_id,
            phase: self.phase,
            status: self.status,
            configured_duration_seconds: self.configured_duration_seconds,
            started_at: self.started_at,
            finished_at: self.finished_at,
        }
    }
}

impl PomodoroSession {
    /// Starts a new session in the [`SessionStatus::Running`] state.
    pub fn new(
        id: PomodoroSessionId,
        task_id: TaskId,
        phase: TimerPhase,
        configured_duration_seconds: u32,
        started_at: Timestamp,
    ) -> (r: Self)
        ensures
            r@ == (SessionView {
                id,
                task_id,
                phase,
                status: SessionStatus::Running,
                configured_duration_seconds,
                started_at,
                finished_at: None,
            }),
    {
        PomodoroSession {
            id,
            task_id,
            phase,
            status: SessionStatus::Running,
            configured_duration_seconds,
            started_at,
            finished_at: None,
        }
    }

    /// Reconstructs a session from persisted fields.
    pub fn from_fields(
        id: PomodoroSessionId,
        task_id: TaskId,
        phase: TimerPhase,
        status: SessionStatus,
        configured_duration_seconds: u32,
        started_at: Timestamp,
        finished_at: Option<Timestamp>,
    ) -> (r: Self)
        ensures
            r@ == (SessionView {
                id,
                task_id,
                phase,
                status,
                configured_duration_seconds,
                started_at,
                finished_at,
            }),
    {
        PomodoroSession {
            id,
            task_id,
            phase,
            status,
            configured_duration_seconds,
            started_at,
            finished_at,
        }
    }

    /// Marks the session completed at `finished_at` (the full duration elapsed).
    pub fn complete(&mut self, finished_at: Timestamp)
        ensures
            final(self)@ == (SessionView {
                status: SessionStatus::Completed,
                finished_at: Some(finished_at),
                ..old(self)@
            }),
    {
        self.status = SessionStatus::Completed;
        self.finished_at = Some(finished_at);
    }

    /// Marks the session abandoned at `finished_at`; its partial time is discarded.
    pub fn abandon(&mut self, finished_at: Timestamp)
        ensures
            final(self)@ == (SessionView {
                status: SessionStatus::Abandoned,
                finished_at: Some(finished_at),
                ..old(self)@
            }),
    {
        self.status = SessionStatus::Abandoned;
        self.finished_at = Some(finished_at);
    }

    /// The session's identifier.
    pub fn id(&self) -> (r: PomodoroSessionId)
        ensures
            r == self@.id,
    {
        self.id
    }

    /// The task this session belongs to.
    pub fn task_id(&self) -> (r: TaskId)
        ensures
            r == self@.task_id,
    {
        self.task_id
    }

    /// The Pomodoro phase this session represents.
    pub fn phase(&self) -> (r: TimerPhase)
        ensures
            r == self@.phase,
    {
        self.phase
    }

    /// The session's current lifecycle status.
    pub fn status(&self) -> (r: SessionStatus)
        ensures
            r == self@.status,
    {
        self.status
    }

    /// The phase's configured duration, in seconds.
    pub fn configured_duration_seconds(&self) -> (r: u32)
        ensures
            r == self@.configured_duration_seconds,
    {
        self.configured_duration_seconds
    }

    /// When the session started.
    pub fn started_at(&self) -> (r: Timestamp)
        ensures
            r == self@.started_at,
    {
        self.started_at
    }

    /// When the session finished (completed or abandoned), if it has.
    pub fn finished_at(&self) -> (r: Option<Timestamp>)
        ensures
            r == self@.finished_at,
    {
        self.finished_at
    }

    /// Whole seconds elapsed since the session started, as of `now` (truncated toward
    /// zero; negative if `now` is before the start).
    pub fn elapsed_seconds(&self, now: Timestamp) -> (r: i64)
        ensures
            r == seconds_between(self@.started_at, now),
    {
        elapsed_seconds(&self.started_at, &now)
    }

    /// Seconds left until the configured duration elapses (negative once past it).
    ///
    /// Derived purely from `started_at` and the configured duration, so a running
    /// timer is restored correctly after a restart.
    pub fn remaining_seconds(&self, now: Timestamp) -> (r: i64)
        ensures
            r == spec_remaining_seconds(self@, now),
    {
        let elapsed = elapsed_seconds(&self.started_at, &now);
        self.configured_duration_seconds as i64 - elapsed
    }

    /// Whether the configured duration has fully elapsed as of `now`.
    pub fn is_expired(&self, now: Timestamp) -> (r: bool)
        ensures
            r == (spec_remaining_seconds(self@, now) <= 0),
    {
        self.remaining_seconds(now) <= 0
    }
}

} // verus!
