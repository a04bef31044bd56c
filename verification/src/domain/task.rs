//! Tasks and their lifecycle state machine.

use vstd::prelude::*;

use crate::domain::ids::TaskId;
use crate::time::{Date, Timestamp};

verus! {

/// Lifecycle state of a [`Task`].
///
/// Valid transitions: `Todo → InProgress`, `InProgress ⇄ Paused`, and
/// `{InProgress, Paused} → {Done, Cancelled}`. `Done` and `Cancelled` are terminal.
#[derive(Clone, Copy, Debug, PartialEq, Eq, Hash, Structural)]
pub enum TaskStatus {
    /// Created but not yet started.
    Todo,
    /// Active and owning the focus timer. At most one task is in this state.
    InProgress,
    /// Started but temporarily suspended; retains its completed pomos.
    Paused,
    /// Completed; terminal.
    Done,
    /// Abandoned; terminal.
    Cancelled,
}

/// The permitted direct transitions of the task state machine.
pub open spec fn transition_allowed(from: TaskStatus, to: TaskStatus) -> bool {
    ||| from == TaskStatus::Todo && to == TaskStatus::InProgress
    ||| from == TaskStatus::InProgress && to == TaskStatus::Paused
    ||| from == TaskStatus::InProgress && to == TaskStatus::Done
    ||| from == TaskStatus::InProgress && to == TaskStatus::Cancelled
    ||| from == TaskStatus::Paused && to == TaskStatus::InProgress
    ||| from == TaskStatus::Paused && to == TaskStatus::Done
    ||| from == TaskStatus::Paused && to == TaskStatus::Cancelled
}

/// `Done` and `Cancelled` are the terminal states.
pub open spec fn status_is_terminal(status: TaskStatus) -> bool {
    status == TaskStatus::Done || status == TaskStatus::Cancelled
}

impl TaskStatus {
    /// Returns `true` if no further transitions are allowed.
    pub fn is_terminal(self) -> (r: bool)
        ensures
            r == status_is_terminal(self),
    {
        match self {
            TaskStatus::Done | TaskStatus::Cancelled => true,
            _ => false,
        }
    }

    /// Returns `true` if this is the single active (timer-owning) state.
    pub fn is_active(self) -> (r: bool)
        ensures
            r == (self == TaskStatus::InProgress),
    {
        match self {
            TaskStatus::InProgress => true,
            _ => false,
        }
    }

    /// Returns `true` if a direct transition to `target` is permitted.
    pub fn can_transition_to(self, target: Self) -> (r: bool)
        ensures
            r == transition_allowed(self, target),
    {
        match (self, target) {
            (TaskStatus::Todo, TaskStatus::InProgress) => true,
            (TaskStatus::InProgress, TaskStatus::Paused) => true,
            (TaskStatus::InProgress, TaskStatus::Done) => true,
            (TaskStatus::InProgress, TaskStatus::Cancelled) => true,
            (TaskStatus::Paused, TaskStatus::InProgress) => true,
            (TaskStatus::Paused, TaskStatus::Done) => true,
            (TaskStatus::Paused, TaskStatus::Cancelled) => true,
            _ => false,
        }
    }

    /// Validates a transition, returning the target status on success.
    ///
    /// # Errors
    /// Returns [`InvalidTransition`] (carrying both statuses) if it is not permitted.
    pub fn transition_to(self, target: Self) -> (r: Result<Self, InvalidTransition>)
        ensures
            r is Ok <==> transition_allowed(self, target),
            r matches Ok(s) ==> s == target,
            r matches Err(e) ==> e.spec_from() == self && e.spec_to() == target,
    {
        if self.can_transition_to(target) {
            Ok(target)
        } else {
            Err(InvalidTransition::new(self, target))
        }
    }
}

/// Terminal states have no outgoing transition, and no state moves to itself or back
/// to `Todo`.
pub proof fn lemma_transition_shape(from: TaskStatus, to: TaskStatus)
    ensures
        status_is_terminal(from) ==> !transition_allowed(from, to),
        !transition_allowed(from, from),
        !transition_allowed(from, TaskStatus::Todo),
        transition_allowed(from, to) ==> to != TaskStatus::Todo && from != to,
{
}

/// Error returned when an invalid [`TaskStatus`] transition is attempted.
#[derive(Clone, Copy, Debug, PartialEq, Eq, Structural)]
pub struct InvalidTransition {
    from: TaskStatus,
    to: TaskStatus,
}

impl InvalidTransition {
    /// The status the task was in.
    pub closed spec fn spec_from(self) -> TaskStatus {
        self.from
    }

    /// The rejected target status.
    pub closed spec fn spec_to(self) -> TaskStatus {
        self.to
    }

    fn new(from: TaskStatus, to: TaskStatus) -> (r: Self)
        ensures
            r.spec_from() == from,
            r.spec_to() == to,
    {
        InvalidTransition { from, to }
    }

    /// The status the task was in.
    pub fn from(self) -> (r: TaskStatus)
        ensures
            r == self.spec_from(),
    {
        self.from
    }

    /// The rejected target status.
    pub fn to(self) -> (r: TaskStatus)
        ensures
            r == self.spec_to(),
    {
        self.to
    }

    /// The error's message: `invalid task transition from {from:?} to {to:?}`.
    pub fn message(&self) -> (r: String)
        ensures
            r@ == "invalid task transition from "@ + status_name(self.spec_from()) + " to "@
                + status_name(self.spec_to()),
    {
        let mut text = String::new();
        text.append("invalid task transition from ");
        text.append(self.from.name());
        text.append(" to ");
        text.append(self.to.name());
        proof {
            reveal_strlit("invalid task transition from ");
            reveal_strlit(" to ");
        }
        text
    }
}

/// The variant name of a status (its `Debug` text).
pub open spec fn status_name(status: TaskStatus) -> Seq<char> {
    match status {
        TaskStatus::Todo => "Todo"@,
        TaskStatus::InProgress => "InProgress"@,
        TaskStatus::Paused => "Paused"@,
        TaskStatus::Done => "Done"@,
        TaskStatus::Cancelled => "Cancelled"@,
    }
}

impl TaskStatus {
    /// The variant name of this status.
    pub fn name(self) -> (r: &'static str)
        ensures
            r@ == status_name(self),
    {
        match self {
            TaskStatus::Todo => "Todo",
            TaskStatus::InProgress => "InProgress",
            TaskStatus::Paused => "Paused",
            TaskStatus::Done => "Done",
            TaskStatus::Cancelled => "Cancelled",
        }
    }
}

/// A three-step rating used for a task's expected effort and effect.
#[derive(Clone, Copy, Debug, PartialEq, Eq, Hash, Structural)]
pub enum Rating {
    /// Low.
    Low,
    /// Medium.
    Mid,
    /// High.
    High,
}

/// The rating as a number: `Low` 0, `Mid` 1, `High` 2.
pub open spec fn rating_level(rating: Rating) -> int {
    match rating {
        Rating::Low => 0,
        Rating::Mid => 1,
        Rating::High => 2,
    }
}

impl Rating {
    /// The rating as a number (0, 1, 2) for score arithmetic.
    pub fn level(self) -> (r: i8)
        ensures
            r == rating_level(self),
    {
        match self {
            Rating::Low => 0,
            Rating::Mid => 1,
            Rating::High => 2,
        }
    }
}

/// Error returned when a task's due date would fall before its start date.
#[derive(Clone, Copy, Debug, PartialEq, Eq, Structural)]
pub struct InvalidSchedule;

impl InvalidSchedule {
    /// The error's message.
    pub fn message(&self) -> (r: String)
        ensures
            r@ == "the due date is before the start date"@,
    {
        let mut text = String::new();
        text.append("the due date is before the start date");
        proof {
            reveal_strlit("the due date is before the start date");
        }
        text
    }
}

/// The abstract contents of a [`Task`].
pub ghost struct TaskView {
    pub id: TaskId,
    pub title: Seq<char>,
    pub description: Seq<char>,
    pub status: TaskStatus,
    pub estimated_pomos: u32,
    pub effort: Option<Rating>,
    pub effect: Option<Rating>,
    pub start_date: Option<Date>,
    pub due_date: Option<Date>,
    pub linked_from: Option<TaskId>,
    pub created_at: Timestamp,
    pub completed_at: Option<Timestamp>,
}

/// The task's value-for-effort score: `effect − effort` when both ratings are set.
pub open spec fn spec_value_score(effect: Option<Rating>, effort: Option<Rating>) -> Option<int> {
    match (effect, effort) {
        (Some(a), Some(b)) => Some(rating_level(a) - rating_level(b)),
        _ => None,
    }
}

/// Whether a start/due window is acceptable: not both set with the due date first.
pub open spec fn schedule_is_valid(start: Option<Date>, due: Option<Date>) -> bool {
    match (start, due) {
        (Some(s), Some(d)) => !(d.day_number() < s.day_number()),
        _ => true,
    }
}

/// A unit of work whose focused effort is measured in pomodoros.
///
/// Completed effort is never stored on the task; it is derived from session history.
#[derive(Debug, PartialEq, Eq)]
pub struct Task {
    id: TaskId,
    title: String,
    description: String,
    status: TaskStatus,
    estimated_pomos: u32,
    effort: Option<Rating>,
    effect: Option<Rating>,
    start_date: Option<Date>,
    due_date: Option<Date>,
    linked_from: Option<TaskId>,
    created_at: Timestamp,
    completed_at: Option<Timestamp>,
}

impl View for Task {
    type V = TaskView;

    closed spec fn view(&self) -> TaskView {
        TaskView {
            id: self.id,
            title: self.title@,
            description: self.description@,
            status: self.status,
            estimated_pomos: self.estimated_pomos,
            effort: self.effort,
            effect: self.effect,
            start_date: self.start_date,
            due_date: self.due_date,
            linked_from: self.linked_from,
            created_at: self.created_at,
            completed_at: self.completed_at,
        }
    }
}

impl Clone for Task {
    fn clone(&self) -> (r: Self)
        ensures
            r@ == self@,
    {
        Task {
            id: self.id,
            title: self.title.clone(),
            description: self.description.clone(),
            status: self.status,
            estimated_pomos: self.estimated_pomos,
            effort: self.effort,
            effect: self.effect,
            start_date: self.start_date,
            due_date: self.due_date,
            linked_from: self.linked_from,
            created_at: self.created_at,
            completed_at: self.completed_at,
        }
    }
}

impl Task {
    /// Creates a new task in the [`TaskStatus::Todo`] state, with an empty description
    /// and no ratings, schedule, link or completion time.
    pub fn new(id: TaskId, title: String, estimated_pomos: u32, created_at: Timestamp) -> (r: Self)
        ensures
            r@ == (TaskView {
                id,
                title: title@,
                description: Seq::empty(),
                status: TaskStatus::Todo,
                estimated_pomos,
                effort: None,
                effect: None,
                start_date: None,
                due_date: None,
                linked_from: None,
                created_at,
                completed_at: None,
            }),
    {
        Task {
            id,
            title,
            description: String::new(),
            status: TaskStatus::Todo,
            estimated_pomos,
            effort: None,
            effect: None,
            start_date: None,
            due_date: None,
            linked_from: None,
            created_at,
            completed_at: None,
        }
    }

    /// Reconstructs a task from persisted fields, trusting the given values.
    pub fn from_fields(
        id: TaskId,
        title: String,
        description: String,
        status: TaskStatus,
        estimated_pomos: u32,
        effort: Option<Rating>,
        effect: Option<Rating>,
        start_date: Option<Date>,
        due_date: Option<Date>,
        linked_from: Option<TaskId>,
        created_at: Timestamp,
        completed_at: Option<Timestamp>,
    ) -> (r: Self)
        ensures
            r@ == (TaskView {
                id,
                title: title@,
                description: description@,
                status,
                estimated_pomos,
                effort,
                effect,
                start_date,
                due_date,
                linked_from,
                created_at,
                completed_at,
            }),
    {
        Task {
            id,
            title,
            description,
            status,
            estimated_pomos,
            effort,
            effect,
            start_date,
            due_date,
            linked_from,
            created_at,
            completed_at,
        }
    }

    /// Attempts to move the task to `target`.
    ///
    /// On a successful transition to [`TaskStatus::Done`], `now` is recorded as the
    /// completion time. On failure the task is left unchanged.
    pub fn apply_transition(&mut self, target: TaskStatus, now: Timestamp) -> (r: Result<
        (),
        InvalidTransition,
    >)
        ensures
            r is Ok <==> transition_allowed(old(self)@.status, target),
            r matches Err(e) ==> e.spec_from() == old(self)@.status && e.spec_to() == target,
            r is Ok ==> final(self)@ == (TaskView {
                status: target,
                completed_at: if target == TaskStatus::Done {
                    Some(now)
                } else {
                    old(self)@.completed_at
                },
                ..old(self)@
            }),
            r is Err ==> final(self)@ == old(self)@,
    {
        let next = match self.status.transition_to(target) {
            Ok(next) => next,
            Err(e) => return Err(e),
        };
        self.status = next;
        if next == TaskStatus::Done {
            self.completed_at = Some(now);
        }
        Ok(())
    }

    /// The task's identifier.
    pub fn id(&self) -> (r: TaskId)
        ensures
            r == self@.id,
    {
        self.id
    }

    /// The task's title.
    pub fn title(&self) -> (r: &str)
        ensures
            r@ == self@.title,
    {
        self.title.as_str()
    }

    /// The task's free-form description (may be empty).
    pub fn description(&self) -> (r: &str)
        ensures
            r@ == self@.description,
    {
        self.description.as_str()
    }

    /// Replaces the task's description.
    pub fn set_description(&mut self, description: String)
        ensures
            final(self)@ == (TaskView { description: description@, ..old(self)@ }),
    {
        self.description = description;
    }

    /// The task's current lifecycle status.
    pub fn status(&self) -> (r: TaskStatus)
        ensures
            r == self@.status,
    {
        self.status
    }

    /// The user's pomodoro estimate for the task.
    pub fn estimated_pomos(&self) -> (r: u32)
        ensures
            r == self@.estimated_pomos,
    {
        self.estimated_pomos
    }

    /// The expected effort rating, if the user has set one.
    pub fn effort(&self) -> (r: Option<Rating>)
        ensures
            r == self@.effort,
    {
        self.effort
    }

    /// The expected effect (impact) rating, if the user has set one.
    pub fn effect(&self) -> (r: Option<Rating>)
        ensures
            r == self@.effect,
    {
        self.effect
    }

    /// Sets or clears the effort and effect ratings.
    pub fn set_ratings(&mut self, effort: Option<Rating>, effect: Option<Rating>)
        ensures
            final(self)@ == (TaskView { effort, effect, ..old(self)@ }),
    {
        self.effort = effort;
        self.effect = effect;
    }

    /// The value-for-effort score when both ratings are set: `effect − effort`, from
    /// −2 (high effort, low effect) through 0 to +2 (low effort, high effect).
    pub fn value_score(&self) -> (r: Option<i8>)
        ensures
            r is Some == spec_value_score(self@.effect, self@.effort) is Some,
            r matches Some(v) ==> v == spec_value_score(self@.effect, self@.effort)->0,
    {
        match (self.effect, self.effort) {
            (Some(effect), Some(effort)) => Some(effect.level() - effort.level()),
            _ => None,
        }
    }

    /// The planned start date, if scheduled.
    pub fn start_date(&self) -> (r: Option<Date>)
        ensures
            r == self@.start_date,
    {
        self.start_date
    }

    /// The due date, if set.
    pub fn due_date(&self) -> (r: Option<Date>)
        ensures
            r == self@.due_date,
    {
        self.due_date
    }

    /// Sets or clears the planned start and due dates.
    ///
    /// # Errors
    /// Returns [`InvalidSchedule`] if both are set and the due date is before the start
    /// date; the task is then left unchanged.
    pub fn set_schedule(&mut self, start_date: Option<Date>, due_date: Option<Date>) -> (r: Result<
        (),
        InvalidSchedule,
    >)
        ensures
            r is Ok <==> schedule_is_valid(start_date, due_date),
            r is Ok ==> final(self)@ == (TaskView { start_date, due_date, ..old(self)@ }),
            r is Err ==> final(self)@ == old(self)@,
    {
        if let (Some(start), Some(due)) = (start_date, due_date) {
            if due.is_before(&start) {
                return Err(InvalidSchedule);
            }
        }
        self.start_date = start_date;
        self.due_date = due_date;
        Ok(())
    }

    /// Whether the task is past its due date and still unfinished, as of `today`.
    pub fn is_overdue(&self, today: Date) -> (r: bool)
        ensures
            r == (match self@.due_date {
                Some(due) => due.day_number() < today.day_number() && !status_is_terminal(
                    self@.status,
                ),
                None => false,
            }),
    {
        match self.due_date {
            Some(due) => due.is_before(&today) && !self.status.is_terminal(),
            None => false,
        }
    }

    /// The date the task's timeline bar begins: the planned start date, falling back to
    /// the (UTC) day the task was created.
    pub fn bar_start(&self) -> (r: Date)
        ensures
            self@.start_date matches Some(d) ==> r == d,
            self@.start_date is None ==> r.day_number() == crate::time::day_of_seconds(
                self@.created_at.spec_secs(),
            ),
    {
        match self.start_date {
            Some(d) => d,
            None => self.created_at.date_naive(),
        }
    }

    /// The task this one was created as a follow-up to, if any.
    pub fn linked_from(&self) -> (r: Option<TaskId>)
        ensures
            r == self@.linked_from,
    {
        self.linked_from
    }

    /// Updates the pomodoro estimate.
    pub fn set_estimated_pomos(&mut self, estimated_pomos: u32)
        ensures
            final(self)@ == (TaskView { estimated_pomos, ..old(self)@ }),
    {
        self.estimated_pomos = estimated_pomos;
    }

    /// Sets the task this one follows up on.
    pub fn set_linked_from(&mut self, linked_from: Option<TaskId>)
        ensures
            final(self)@ == (TaskView { linked_from, ..old(self)@ }),
    {
        self.linked_from = linked_from;
    }

    /// When the task was created.
    pub fn created_at(&self) -> (r: Timestamp)
        ensures
            r == self@.created_at,
    {
        self.created_at
    }

    /// When the task was completed, if it has been.
    pub fn completed_at(&self) -> (r: Option<Timestamp>)
        ensures
            r == self@.completed_at,
    {
        self.completed_at
    }
}

} // verus!
