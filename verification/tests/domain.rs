use jotphant::domain::bank::{balance, BankTransaction, BankTransactionType};
use jotphant::domain::ids::{BankTransactionId, NoteId, PomodoroSessionId, TaskId};
use jotphant::domain::note::Note;
use jotphant::domain::pomodoro::PomodoroConfig;
use jotphant::domain::reward::{completed_focus_pomos, leisure_minutes};
use jotphant::domain::session::{PomodoroSession, SessionStatus, TimerPhase};
use jotphant::domain::task::{InvalidSchedule, Rating, Task, TaskStatus};
use jotphant::time::{Date, Timestamp};

fn at(secs: i64) -> Timestamp {
    Timestamp::from_timestamp(secs, 0).expect("valid timestamp")
}

fn ts() -> Timestamp {
    at(0)
}

fn date(year: i32, month: u32, day: u32) -> Date {
    Date::from_ymd_opt(year, month, day).expect("valid date")
}

// --- pomodoro ---

#[test]
fn focus_normally_leads_to_a_short_break() {
    let config = PomodoroConfig::default();
    assert_eq!(config.next_phase(TimerPhase::Focus, 1), TimerPhase::ShortBreak);
    assert_eq!(config.next_phase(TimerPhase::Focus, 3), TimerPhase::ShortBreak);
}

#[test]
fn every_nth_focus_leads_to_a_long_break() {
    let config = PomodoroConfig::default(); // long break after 4
    assert_eq!(config.next_phase(TimerPhase::Focus, 4), TimerPhase::LongBreak);
    assert_eq!(config.next_phase(TimerPhase::Focus, 8), TimerPhase::LongBreak);
}

#[test]
fn breaks_lead_back_to_focus() {
    let config = PomodoroConfig::default();
    assert_eq!(config.next_phase(TimerPhase::ShortBreak, 3), TimerPhase::Focus);
    assert_eq!(config.next_phase(TimerPhase::LongBreak, 4), TimerPhase::Focus);
}

#[test]
fn duration_matches_the_phase() {
    let config = PomodoroConfig::default();
    assert_eq!(config.duration_seconds(TimerPhase::Focus), 1500);
    assert_eq!(config.duration_seconds(TimerPhase::ShortBreak), 300);
    assert_eq!(config.duration_seconds(TimerPhase::LongBreak), 900);
}

#[test]
fn auto_start_flags_are_reported_per_phase() {
    let default = PomodoroConfig::default();
    assert!(default.should_auto_start(TimerPhase::Focus));
    assert!(default.should_auto_start(TimerPhase::ShortBreak));

    let manual = PomodoroConfig::new(1, 1, 1, 4, false, false);
    assert!(!manual.should_auto_start(TimerPhase::Focus));
    assert!(!manual.should_auto_start(TimerPhase::ShortBreak));
}

#[test]
fn long_break_after_is_clamped_to_at_least_one() {
    let config = PomodoroConfig::new(1, 1, 1, 0, true, true);
    // With the clamp, every focus is "the nth", so a long break is always due.
    assert_eq!(config.next_phase(TimerPhase::Focus, 1), TimerPhase::LongBreak);
    assert_eq!(config.next_phase(TimerPhase::Focus, 2), TimerPhase::LongBreak);
}

#[test]
fn the_cycle_after_a_focus_depends_on_the_count_modulo_the_cadence() {
    let config = PomodoroConfig::new(60, 60, 60, 3, true, false);
    assert_eq!(config.long_break_after(), 3);
    assert_eq!(config.next_phase(TimerPhase::Focus, 0), TimerPhase::LongBreak);
    assert_eq!(config.next_phase(TimerPhase::Focus, 2), TimerPhase::ShortBreak);
    assert_eq!(config.next_phase(TimerPhase::Focus, 6), TimerPhase::LongBreak);
    assert!(config.should_auto_start(TimerPhase::LongBreak));
    assert!(!config.should_auto_start(TimerPhase::Focus));
}

// --- reward ---

fn finished(phase: TimerPhase, completed: bool) -> PomodoroSession {
    let mut session =
        PomodoroSession::new(PomodoroSessionId::new(1), TaskId::new(1), phase, 1500, ts());
    if completed {
        session.complete(ts());
    } else {
        session.abandon(ts());
    }
    session
}

#[test]
fn empty_history_earns_nothing() {
    assert_eq!(completed_focus_pomos(&[]), 0);
}

#[test]
fn counts_only_completed_focus_sessions() {
    let sessions = [
        finished(TimerPhase::Focus, true),
        finished(TimerPhase::Focus, true),
        finished(TimerPhase::Focus, false), // abandoned — not counted
        finished(TimerPhase::ShortBreak, true), // break — not counted
        finished(TimerPhase::LongBreak, true), // break — not counted
    ];
    assert_eq!(completed_focus_pomos(&sessions), 2);
}

#[test]
fn leisure_minutes_multiplies_pomos_by_rate() {
    assert_eq!(leisure_minutes(3, 5), 15);
    assert_eq!(leisure_minutes(0, 5), 0);
    assert_eq!(leisure_minutes(16, 5), 80);
}

#[test]
fn leisure_minutes_saturates_instead_of_overflowing() {
    assert_eq!(leisure_minutes(u32::MAX, 2), u32::MAX);
    assert_eq!(leisure_minutes(65_536, 65_536), u32::MAX);
    assert_eq!(leisure_minutes(65_535, 65_537), 4_294_967_295);
}

// --- bank ---

fn reward(id: i64, amount: i32) -> BankTransaction {
    BankTransaction::new(
        BankTransactionId::new(id),
        Some(TaskId::new(id)),
        amount,
        BankTransactionType::TaskReward,
        None,
        ts(),
    )
}

#[test]
fn empty_ledger_has_zero_balance() {
    assert_eq!(balance(&[]), 0);
}

#[test]
fn balance_sums_signed_amounts() {
    let ledger = [reward(1, 3), reward(2, 5), reward(3, -2)];
    assert_eq!(balance(&ledger), 6);
}

#[test]
fn balance_widens_beyond_i32() {
    let ledger = [reward(1, i32::MAX), reward(2, i32::MAX), reward(3, 2)];
    assert_eq!(balance(&ledger), 2 * i64::from(i32::MAX) + 2);
}

#[test]
fn a_spend_keeps_its_note() {
    let spend = BankTransaction::new(
        BankTransactionId::new(7),
        None,
        -4,
        BankTransactionType::Spend,
        Some("film night".to_owned()),
        at(50),
    );
    assert_eq!(spend.note(), Some("film night"));
    assert_eq!(spend.amount_pomos(), -4);
    assert_eq!(spend.transaction_type(), BankTransactionType::Spend);
    assert_eq!(spend.task_id(), None);
    assert_eq!(spend.created_at(), at(50));
    assert_eq!(spend.id(), BankTransactionId::new(7));
}

// --- session ---

fn running_focus() -> PomodoroSession {
    PomodoroSession::new(PomodoroSessionId::new(1), TaskId::new(1), TimerPhase::Focus, 1500, ts())
}

#[test]
fn only_focus_counts_as_effort() {
    assert!(TimerPhase::Focus.is_effort());
    assert!(!TimerPhase::ShortBreak.is_effort());
    assert!(!TimerPhase::LongBreak.is_effort());
}

#[test]
fn new_session_starts_running_and_unfinished() {
    let session = running_focus();
    assert_eq!(session.status(), SessionStatus::Running);
    assert_eq!(session.finished_at(), None);
}

#[test]
fn complete_sets_status_and_finished_at() {
    let mut session = running_focus();
    session.complete(ts());
    assert_eq!(session.status(), SessionStatus::Completed);
    assert_eq!(session.finished_at(), Some(ts()));
}

#[test]
fn abandon_sets_status_and_finished_at() {
    let mut session = running_focus();
    session.abandon(ts());
    assert_eq!(session.status(), SessionStatus::Abandoned);
    assert_eq!(session.finished_at(), Some(ts()));
}

#[test]
fn remaining_and_expiry_track_elapsed_time() {
    let start = at(1000);
    let session = PomodoroSession::new(
        PomodoroSessionId::new(1),
        TaskId::new(1),
        TimerPhase::Focus,
        60,
        start,
    );

    assert_eq!(session.remaining_seconds(start), 60);
    assert!(!session.is_expired(start));

    let midway = at(1030);
    assert_eq!(session.remaining_seconds(midway), 30);
    assert!(!session.is_expired(midway));

    let at_end = at(1060);
    assert_eq!(session.remaining_seconds(at_end), 0);
    assert!(session.is_expired(at_end));

    let past = at(1100);
    assert!(session.remaining_seconds(past) < 0);
    assert!(session.is_expired(past));
}

#[test]
fn elapsed_seconds_truncate_toward_zero() {
    let start = Timestamp::from_timestamp(1000, 600_000_000).expect("valid timestamp");
    let session = PomodoroSession::new(
        PomodoroSessionId::new(1),
        TaskId::new(1),
        TimerPhase::Focus,
        60,
        start,
    );
    // 1.5 s later is one whole second; 0.5 s earlier is zero whole seconds.
    let later = Timestamp::from_timestamp(1002, 100_000_000).expect("valid timestamp");
    assert_eq!(session.elapsed_seconds(later), 1);
    let earlier = Timestamp::from_timestamp(1000, 100_000_000).expect("valid timestamp");
    assert_eq!(session.elapsed_seconds(earlier), 0);
    assert_eq!(session.elapsed_seconds(at(990)), -10);
    assert_eq!(session.remaining_seconds(at(990)), 70);
}

// --- task ---

#[test]
fn todo_can_start_but_not_finish_directly() {
    assert!(TaskStatus::Todo.can_transition_to(TaskStatus::InProgress));
    assert!(!TaskStatus::Todo.can_transition_to(TaskStatus::Done));
    assert!(!TaskStatus::Todo.can_transition_to(TaskStatus::Cancelled));
}

#[test]
fn in_progress_can_pause_complete_or_cancel() {
    for target in [TaskStatus::Paused, TaskStatus::Done, TaskStatus::Cancelled] {
        assert!(TaskStatus::InProgress.can_transition_to(target));
    }
}

#[test]
fn paused_can_resume_complete_or_cancel() {
    for target in [TaskStatus::InProgress, TaskStatus::Done, TaskStatus::Cancelled] {
        assert!(TaskStatus::Paused.can_transition_to(target));
    }
}

#[test]
fn terminal_states_reject_every_transition() {
    let all = [
        TaskStatus::Todo,
        TaskStatus::InProgress,
        TaskStatus::Paused,
        TaskStatus::Done,
        TaskStatus::Cancelled,
    ];
    for from in [TaskStatus::Done, TaskStatus::Cancelled] {
        assert!(from.is_terminal());
        for to in all {
            assert!(!from.can_transition_to(to));
        }
    }
}

#[test]
fn transition_to_reports_from_and_to_on_error() {
    let err = TaskStatus::Todo
        .transition_to(TaskStatus::Done)
        .expect_err("todo cannot go straight to done");
    assert_eq!(err.from(), TaskStatus::Todo);
    assert_eq!(err.to(), TaskStatus::Done);
}

#[test]
fn no_status_moves_to_itself_or_back_to_todo() {
    let all = [
        TaskStatus::Todo,
        TaskStatus::InProgress,
        TaskStatus::Paused,
        TaskStatus::Done,
        TaskStatus::Cancelled,
    ];
    for from in all {
        assert!(!from.can_transition_to(from));
        assert!(!from.can_transition_to(TaskStatus::Todo));
        assert_eq!(from.is_active(), from == TaskStatus::InProgress);
    }
    assert_eq!(
        TaskStatus::Paused.transition_to(TaskStatus::InProgress),
        Ok(TaskStatus::InProgress)
    );
}

#[test]
fn apply_transition_to_done_records_completed_at() {
    let mut task = Task::new(TaskId::new(1), "write tests".to_owned(), 4, ts());
    task.apply_transition(TaskStatus::InProgress, ts()).expect("todo can start");
    assert_eq!(task.completed_at(), None);

    task.apply_transition(TaskStatus::Done, ts()).expect("in-progress can complete");
    assert_eq!(task.status(), TaskStatus::Done);
    assert_eq!(task.completed_at(), Some(ts()));
}

#[test]
fn value_score_requires_both_ratings() {
    let mut task = Task::new(TaskId::new(1), "rate me".to_owned(), 1, ts());
    assert_eq!(task.value_score(), None);

    task.set_ratings(Some(Rating::High), None);
    assert_eq!(task.value_score(), None);

    // Quick win: high effect for low effort.
    task.set_ratings(Some(Rating::Low), Some(Rating::High));
    assert_eq!(task.value_score(), Some(2));
    // Money pit: high effort for low effect.
    task.set_ratings(Some(Rating::High), Some(Rating::Low));
    assert_eq!(task.value_score(), Some(-2));
    // Balanced.
    task.set_ratings(Some(Rating::Mid), Some(Rating::Mid));
    assert_eq!(task.value_score(), Some(0));

    // Ratings can be cleared again.
    task.set_ratings(None, None);
    assert_eq!(task.value_score(), None);
}

#[test]
fn schedule_rejects_due_before_start() {
    let mut task = Task::new(TaskId::new(1), "plan me".to_owned(), 1, ts());
    let start = date(2026, 8, 10);
    let due = date(2026, 8, 3);

    assert_eq!(task.set_schedule(Some(start), Some(due)), Err(InvalidSchedule));
    // The failed call changed nothing.
    assert_eq!(task.start_date(), None);
    assert_eq!(task.due_date(), None);

    // A valid window (and single-sided dates) are accepted, and clearable.
    task.set_schedule(Some(due), Some(start)).expect("valid window");
    assert_eq!(task.start_date(), Some(due));
    assert_eq!(task.due_date(), Some(start));
    task.set_schedule(None, Some(start)).expect("due only");
    task.set_schedule(None, None).expect("cleared");
}

#[test]
fn overdue_requires_a_passed_due_date_and_an_open_task() {
    let mut task = Task::new(TaskId::new(1), "deadline".to_owned(), 1, ts());
    let due = date(2026, 8, 3);
    let before = date(2026, 8, 1);
    let after = date(2026, 8, 5);

    // No due date -> never overdue.
    assert!(!task.is_overdue(after));

    task.set_schedule(None, Some(due)).expect("set due");
    assert!(!task.is_overdue(before));
    assert!(!task.is_overdue(due)); // due today is not yet overdue
    assert!(task.is_overdue(after));

    // Finished tasks are never overdue.
    task.apply_transition(TaskStatus::InProgress, ts()).expect("start");
    task.apply_transition(TaskStatus::Done, ts()).expect("done");
    assert!(!task.is_overdue(after));
}

#[test]
fn bar_start_falls_back_to_the_creation_day() {
    let mut task = Task::new(TaskId::new(1), "bar".to_owned(), 1, ts());
    assert_eq!(task.bar_start(), ts().date_naive());

    let start = date(2026, 8, 10);
    task.set_schedule(Some(start), None).expect("set start");
    assert_eq!(task.bar_start(), start);
}

#[test]
fn invalid_apply_transition_leaves_task_unchanged() {
    let mut task = Task::new(TaskId::new(1), "x".to_owned(), 1, ts());
    let result = task.apply_transition(TaskStatus::Done, ts());
    assert!(result.is_err());
    assert_eq!(task.status(), TaskStatus::Todo);
}

#[test]
fn ratings_have_levels_and_transition_errors_have_messages() {
    assert_eq!(Rating::Low.level(), 0);
    assert_eq!(Rating::Mid.level(), 1);
    assert_eq!(Rating::High.level(), 2);
    let err = TaskStatus::Done.transition_to(TaskStatus::Paused).expect_err("terminal");
    assert_eq!(err.message(), "invalid task transition from Done to Paused");
}

// --- note ---

#[test]
fn new_note_is_unpinned_unarchived_and_untouched() {
    let note = Note::new(NoteId::new(1), "t".to_owned(), "body".to_owned(), None, at(1000));
    assert!(!note.pinned());
    assert!(!note.archived());
    assert_eq!(note.created_at(), at(1000));
    assert_eq!(note.updated_at(), at(1000));
    assert_eq!(note.task_id(), None);
}

#[test]
fn setters_and_touch_update_fields() {
    let mut note = Note::new(NoteId::new(1), "t".to_owned(), "b".to_owned(), None, at(1000));
    note.set_title("new".to_owned());
    note.set_body("changed".to_owned());
    note.set_pinned(true);
    note.set_archived(true);
    let later = at(2000);
    note.touch(later);

    assert_eq!(note.title(), "new");
    assert_eq!(note.body_markdown(), "changed");
    assert!(note.pinned());
    assert!(note.archived());
    assert_eq!(note.updated_at(), later);
    assert_eq!(note.created_at(), at(1000)); // unchanged
}
