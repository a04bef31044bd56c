use jotphant::app::error::Error;
use jotphant::app::service::{workflow_invariant_holds, TaskService};
use jotphant::domain::config::{AppConfig, Language, ThemeChoice};
use jotphant::domain::ids::{NoteId, TaskId};
use jotphant::domain::pomodoro::PomodoroConfig;
use jotphant::domain::repository::RepositoryError;
use jotphant::domain::session::{SessionStatus, TimerPhase};
use jotphant::domain::task::TaskStatus;
use jotphant::storage::memory::MemoryStore;
use jotphant::time::Timestamp;

fn ts() -> Timestamp {
    Timestamp::from_timestamp(1_700_000_000, 0).expect("valid timestamp")
}

fn service() -> TaskService {
    service_with(AppConfig::default())
}

fn service_with(config: AppConfig) -> TaskService {
    TaskService::new(MemoryStore::new(), config)
}

fn config_with(pomodoro: PomodoroConfig, leisure_minutes_per_pomo: u32) -> AppConfig {
    AppConfig::new(pomodoro, leisure_minutes_per_pomo, ThemeChoice::Light, Language::English)
}

#[test]
fn create_task_starts_in_todo() {
    let mut service = service();
    let task = service.create_task("plan", 3, ts()).expect("create");
    assert_eq!(task.status(), TaskStatus::Todo);
    assert_eq!(task.estimated_pomos(), 3);
}

#[test]
fn start_task_activates_and_opens_a_focus_session() {
    let mut service = service();
    let task = service.create_task("do work", 2, ts()).expect("create");
    let started = service.start_task(task.id(), ts()).expect("start");
    assert_eq!(started.status(), TaskStatus::InProgress);

    let session = service.running_session(task.id()).expect("query").expect("running session");
    assert_eq!(session.phase(), TimerPhase::Focus);
    assert_eq!(session.status(), SessionStatus::Running);
}

#[test]
fn starting_another_task_auto_pauses_the_active_one() {
    let mut service = service();
    let first = service.create_task("first", 1, ts()).expect("create");
    let second = service.create_task("second", 1, ts()).expect("create");
    service.start_task(first.id(), ts()).expect("start first");

    let started = service.start_task(second.id(), ts()).expect("start second");
    assert_eq!(started.status(), TaskStatus::InProgress);

    // The previously active task is now paused, and its running pomo was abandoned.
    let first_now = service
        .list_tasks()
        .expect("list")
        .into_iter()
        .find(|candidate| candidate.id() == first.id())
        .expect("first exists");
    assert_eq!(first_now.status(), TaskStatus::Paused);
    assert!(service.running_session(first.id()).expect("query").is_none());

    // Exactly one task is active, and it is the second one.
    let active = service.active_task().expect("query").expect("an active task");
    assert_eq!(active.id(), second.id());
}

#[test]
fn start_missing_task_is_not_found() {
    let mut service = service();
    let error = service.start_task(TaskId::new(999), ts()).expect_err("missing task");
    assert!(matches!(error, Error::TaskNotFound));
}

#[test]
fn completed_task_cannot_be_restarted() {
    let mut service = service();
    let task = service.create_task("one and done", 1, ts()).expect("create");
    service.start_task(task.id(), ts()).expect("start");
    service.advance_pomodoro(task.id(), ts()).expect("complete pomo");
    service.complete_task(task.id(), ts()).expect("complete");

    let error = service.start_task(task.id(), ts()).expect_err("done is terminal");
    assert!(matches!(error, Error::Transition(_)));
}

#[test]
fn complete_task_banks_completed_focus_pomos() {
    let mut service = service();
    let task = service.create_task("ship it", 2, ts()).expect("create");
    service.start_task(task.id(), ts()).expect("start");
    service.advance_pomodoro(task.id(), ts()).expect("complete pomo");

    let earned = service.complete_task(task.id(), ts()).expect("complete task");
    assert_eq!(earned, 1);
    assert_eq!(service.bank_balance().expect("balance"), 1);

    let done = service
        .list_tasks()
        .expect("list")
        .into_iter()
        .find(|candidate| candidate.id() == task.id())
        .expect("task exists");
    assert_eq!(done.status(), TaskStatus::Done);
}

#[test]
fn completing_with_a_running_pomo_earns_nothing_and_abandons_it() {
    let mut service = service();
    let task = service.create_task("abandon me", 1, ts()).expect("create");
    service.start_task(task.id(), ts()).expect("start");

    let earned = service.complete_task(task.id(), ts()).expect("complete");
    assert_eq!(earned, 0);
    assert_eq!(service.bank_balance().expect("balance"), 0);
    assert!(service.running_session(task.id()).expect("query").is_none());
}

#[test]
fn pause_task_suspends_and_abandons_running_pomo() {
    let mut service = service();
    let task = service.create_task("pause me", 2, ts()).expect("create");
    service.start_task(task.id(), ts()).expect("start");

    let paused = service.pause_task(task.id(), ts()).expect("pause");
    assert_eq!(paused.status(), TaskStatus::Paused);
    assert!(service.running_session(task.id()).expect("query").is_none());
}

#[test]
fn paused_task_can_be_resumed() {
    let mut service = service();
    let task = service.create_task("resume me", 2, ts()).expect("create");
    service.start_task(task.id(), ts()).expect("start");
    service.pause_task(task.id(), ts()).expect("pause");

    let resumed = service.start_task(task.id(), ts()).expect("resume");
    assert_eq!(resumed.status(), TaskStatus::InProgress);
    assert!(service.running_session(task.id()).expect("query").is_some());
}

#[test]
fn earned_pomos_accumulate_across_a_pause() {
    let mut service = service();
    let task = service.create_task("two sittings", 2, ts()).expect("create");
    service.start_task(task.id(), ts()).expect("start");
    service.advance_pomodoro(task.id(), ts()).expect("first pomo");
    service.pause_task(task.id(), ts()).expect("pause");
    service.start_task(task.id(), ts()).expect("resume");
    service.advance_pomodoro(task.id(), ts()).expect("second pomo");

    let earned = service.complete_task(task.id(), ts()).expect("complete");
    assert_eq!(earned, 2);
    assert_eq!(service.bank_balance().expect("balance"), 2);
}

#[test]
fn cannot_pause_a_todo_task() {
    let mut service = service();
    let task = service.create_task("still todo", 1, ts()).expect("create");
    let error = service.pause_task(task.id(), ts()).expect_err("only in-progress tasks pause");
    assert!(matches!(error, Error::Transition(_)));
}

#[test]
fn cancel_task_marks_cancelled_without_reward() {
    let mut service = service();
    let task = service.create_task("abandon ship", 2, ts()).expect("create");
    service.start_task(task.id(), ts()).expect("start");
    service.advance_pomodoro(task.id(), ts()).expect("one pomo done");

    let cancelled = service.cancel_task(task.id(), ts()).expect("cancel");
    assert_eq!(cancelled.status(), TaskStatus::Cancelled);
    assert_eq!(service.bank_balance().expect("balance"), 0);
}

#[test]
fn cancel_from_paused_is_allowed() {
    let mut service = service();
    let task = service.create_task("shelve it", 2, ts()).expect("create");
    service.start_task(task.id(), ts()).expect("start");
    service.pause_task(task.id(), ts()).expect("pause");

    let cancelled = service.cancel_task(task.id(), ts()).expect("cancel");
    assert_eq!(cancelled.status(), TaskStatus::Cancelled);
}

#[test]
fn cancelled_task_keeps_measured_effort_but_earns_no_reward() {
    let mut service = service();
    let task = service.create_task("half done", 4, ts()).expect("create");
    service.start_task(task.id(), ts()).expect("start");
    service.advance_pomodoro(task.id(), ts()).expect("one focus pomo -> break");

    service.cancel_task(task.id(), ts()).expect("cancel");

    // The completed focus pomo remains as measured effort (history)...
    assert_eq!(service.completed_pomos(task.id()).expect("effort"), 1);
    // ...but it generated no bank reward.
    assert_eq!(service.bank_balance().expect("balance"), 0);
}

#[test]
fn cannot_cancel_a_todo_task() {
    let mut service = service();
    let task = service.create_task("never started", 1, ts()).expect("create");
    let error = service.cancel_task(task.id(), ts()).expect_err("todo cannot be cancelled");
    assert!(matches!(error, Error::Transition(_)));
}

#[test]
fn notes_can_be_created_edited_and_tagged() {
    let mut service = service();
    let note = service.create_note("Idea", "first draft", ts()).expect("create");
    assert!(!note.pinned());

    let saved = service
        .save_note_content(note.id(), "Idea v2".to_owned(), "second draft".to_owned(), ts())
        .expect("save");
    assert_eq!(saved.title(), "Idea v2");
    assert_eq!(saved.body_markdown(), "second draft");

    service.set_note_pinned(note.id(), true, ts()).expect("pin");
    service.set_note_tags(note.id(), &["work".to_owned()]).expect("tag");
    assert_eq!(service.note_tags(note.id()).expect("tags"), ["work"]);

    let listed = service.list_notes().expect("list");
    assert_eq!(listed.len(), 1);
    assert!(listed[0].pinned());
}

#[test]
fn wikilinks_in_a_note_body_create_backlinks() {
    let mut service = service();
    let target = service.create_note("Target", "", ts()).expect("create target");
    let source = service.create_note("Source", "", ts()).expect("create source");

    service
        .save_note_content(source.id(), "Source".to_owned(), "see [[Target]]".to_owned(), ts())
        .expect("save source");

    let backlinks = service.note_backlinks(target.id()).expect("backlinks");
    assert_eq!(backlinks.len(), 1);
    assert_eq!(backlinks[0].id(), source.id());

    // A dangling link to a non-existent title is simply ignored.
    service
        .save_note_content(source.id(), "Source".to_owned(), "[[Nope]]".to_owned(), ts())
        .expect("save with dangling link");
    assert!(service.note_backlinks(target.id()).expect("backlinks").is_empty());
}

#[test]
fn quick_jot_attaches_a_note_to_the_task() {
    let mut service = service();
    let task = service.create_task("work", 1, ts()).expect("create");

    let note = service.quick_jot(task.id(), "first line\nmore detail", ts()).expect("jot");
    assert_eq!(note.task_id(), Some(task.id()));
    assert_eq!(note.title(), "first line");
    assert_eq!(note.body_markdown(), "first line\nmore detail");

    let listed = service.list_notes().expect("list");
    assert!(listed
        .iter()
        .any(|candidate| candidate.id() == note.id() && candidate.task_id() == Some(task.id())));
}

#[test]
fn task_notes_lists_jots_newest_first() {
    let mut service = service();
    let task = service.create_task("work", 1, ts()).expect("task");
    service.quick_jot(task.id(), "one", ts()).expect("jot one");
    service.quick_jot(task.id(), "two", ts()).expect("jot two");

    let notes = service.task_notes(task.id()).expect("notes");
    assert_eq!(notes.len(), 2);
    assert_eq!(notes[0].body_markdown(), "two");
    assert_eq!(notes[1].body_markdown(), "one");
}

#[test]
fn saving_a_missing_note_is_not_found() {
    let mut service = service();
    let error = service
        .save_note_content(NoteId::new(123), "x".to_owned(), String::new(), ts())
        .expect_err("missing note");
    assert!(matches!(error, Error::NoteNotFound));
}

#[test]
fn set_task_description_persists() {
    let mut service = service();
    let task = service.create_task("describe me", 1, ts()).expect("create");
    assert_eq!(task.description(), "");

    let updated = service
        .set_task_description(task.id(), "the full story".to_owned())
        .expect("set description");
    assert_eq!(updated.description(), "the full story");

    let reloaded = service
        .list_tasks()
        .expect("list")
        .into_iter()
        .find(|candidate| candidate.id() == task.id())
        .expect("exists");
    assert_eq!(reloaded.description(), "the full story");
}

#[test]
fn completing_a_focus_auto_starts_a_short_break() {
    let mut service = service();
    let task = service.create_task("cycle", 4, ts()).expect("create");
    service.start_task(task.id(), ts()).expect("start");

    service.advance_pomodoro(task.id(), ts()).expect("advance");
    let running = service.running_session(task.id()).expect("query").expect("a break is running");
    assert_eq!(running.phase(), TimerPhase::ShortBreak);
    assert_eq!(running.status(), SessionStatus::Running);
}

#[test]
fn completing_a_break_auto_starts_a_focus() {
    let mut service = service();
    let task = service.create_task("cycle", 4, ts()).expect("create");
    service.start_task(task.id(), ts()).expect("start");
    service.advance_pomodoro(task.id(), ts()).expect("focus -> break");

    service.advance_pomodoro(task.id(), ts()).expect("break -> focus");
    let running = service.running_session(task.id()).expect("query").expect("a focus is running");
    assert_eq!(running.phase(), TimerPhase::Focus);
}

#[test]
fn every_fourth_focus_leads_to_a_long_break() {
    let mut service = service(); // default long_break_after = 4
    let task = service.create_task("cycle", 8, ts()).expect("create");
    service.start_task(task.id(), ts()).expect("start");

    // Complete three focus pomos, each followed by a short break.
    for _ in 0..3 {
        service.advance_pomodoro(task.id(), ts()).expect("focus -> break");
        let running = service.running_session(task.id()).expect("query").expect("break");
        assert_eq!(running.phase(), TimerPhase::ShortBreak);
        service.advance_pomodoro(task.id(), ts()).expect("break -> focus");
    }

    // The fourth focus completes -> long break.
    service.advance_pomodoro(task.id(), ts()).expect("fourth focus");
    let running = service.running_session(task.id()).expect("query").expect("long break");
    assert_eq!(running.phase(), TimerPhase::LongBreak);
}

#[test]
fn reconcile_completes_a_timer_that_expired_while_closed() {
    let mut service = service(); // default focus = 25 min
    let task = service.create_task("left running", 4, ts()).expect("create");
    service.start_task(task.id(), ts()).expect("start");

    // Reopen 40 minutes later — the focus should have finished.
    let later = ts().checked_add_seconds(40 * 60).expect("in range");
    service.reconcile_active_timer(later).expect("reconcile on reopen");

    let running = service.running_session(task.id()).expect("query").expect("a break is running");
    assert_eq!(running.phase(), TimerPhase::ShortBreak);
    // The new phase started fresh from `later`, not back-dated.
    assert!(!running.is_expired(later));
    assert_eq!(running.started_at(), later);
    // The focus finished when its 25 minutes ran out, not when the app reopened.
    let sessions = service.store().list_sessions_for_task(task.id());
    assert_eq!(sessions[0].status(), SessionStatus::Completed);
    let expired_at = ts().checked_add_seconds(25 * 60).expect("in range");
    assert_eq!(sessions[0].finished_at(), Some(expired_at));
}

#[test]
fn advancing_by_hand_finishes_the_phase_now() {
    let mut service = service();
    let task = service.create_task("skip ahead", 4, ts()).expect("create");
    service.start_task(task.id(), ts()).expect("start");
    let later = ts().checked_add_seconds(10 * 60).expect("in range");
    service.advance_pomodoro(task.id(), later).expect("advance");
    let sessions = service.store().list_sessions_for_task(task.id());
    assert_eq!(sessions[0].finished_at(), Some(later));
}

#[test]
fn reconcile_leaves_a_still_running_timer_alone() {
    let mut service = service();
    let task = service.create_task("mid focus", 4, ts()).expect("create");
    service.start_task(task.id(), ts()).expect("start");

    // Reopen 5 minutes into a 25-minute focus.
    let later = ts().checked_add_seconds(5 * 60).expect("in range");
    service.reconcile_active_timer(later).expect("reconcile");

    let running = service.running_session(task.id()).expect("query").expect("still running");
    assert_eq!(running.phase(), TimerPhase::Focus);
}

#[test]
fn reconcile_is_a_noop_without_an_active_task() {
    let mut service = service();
    service.create_task("idle", 1, ts()).expect("create");
    service.reconcile_active_timer(ts()).expect("reconcile");
}

#[test]
fn manual_start_next_phase_when_auto_start_is_off() {
    let config = config_with(PomodoroConfig::new(25 * 60, 5 * 60, 15 * 60, 4, false, false), 5);
    let mut service = service_with(config);
    let task = service.create_task("manual", 4, ts()).expect("create");
    service.start_task(task.id(), ts()).expect("start");

    // Completing the focus does not auto-start a break.
    service.advance_pomodoro(task.id(), ts()).expect("advance");
    assert!(service.running_session(task.id()).expect("query").is_none());
    assert_eq!(service.pending_next_phase(task.id()).expect("pending"), Some(TimerPhase::ShortBreak));

    // Starting it manually opens the break.
    service.start_next_phase(task.id(), ts()).expect("start next");
    let running = service.running_session(task.id()).expect("query").expect("break started");
    assert_eq!(running.phase(), TimerPhase::ShortBreak);
}

#[test]
fn set_config_updates_the_reward_rate() {
    let mut service = service();
    assert_eq!(service.leisure_minutes_per_pomo(), 5);

    service.set_config(config_with(PomodoroConfig::default(), 10));
    assert_eq!(service.leisure_minutes_per_pomo(), 10);
}

#[test]
fn advancing_with_no_running_session_errors() {
    let mut service = service();
    let task = service.create_task("idle", 1, ts()).expect("create");
    let error = service.advance_pomodoro(task.id(), ts()).expect_err("nothing to advance");
    assert!(matches!(error, Error::NoRunningSession));
}

#[test]
fn cannot_complete_a_task_that_is_not_active() {
    let mut service = service();
    let task = service.create_task("idle", 1, ts()).expect("create");
    let error = service.complete_task(task.id(), ts()).expect_err("todo task is not active");
    assert!(matches!(error, Error::TaskNotActive));
}

// --- Further scenarios ---

#[test]
fn a_second_start_of_the_active_task_is_a_transition_error() {
    let mut service = service();
    let task = service.create_task("busy", 1, ts()).expect("create");
    service.start_task(task.id(), ts()).expect("start");
    let error = service.start_task(task.id(), ts()).expect_err("already in progress");
    assert!(matches!(error, Error::Transition(_)));
    // Nothing changed: still one running focus.
    assert_eq!(service.store().session_count(), 1);
    assert!(workflow_invariant_holds(service.store()));
}

#[test]
fn completing_banks_at_most_what_was_earned_and_pays_the_bank_once() {
    let mut service = service();
    let task = service.create_task("twice", 3, ts()).expect("create");
    service.start_task(task.id(), ts()).expect("start");
    for _ in 0..3 {
        service.advance_pomodoro(task.id(), ts()).expect("focus -> break");
        service.advance_pomodoro(task.id(), ts()).expect("break -> focus");
    }
    assert_eq!(service.completed_pomos(task.id()).expect("effort"), 3);
    assert_eq!(service.complete_task(task.id(), ts()).expect("complete"), 3);
    assert_eq!(service.bank_balance().expect("balance"), 3);
    // A done task cannot be completed again, so it cannot be paid twice.
    assert!(matches!(service.complete_task(task.id(), ts()), Err(Error::TaskNotActive)));
    assert_eq!(service.bank_balance().expect("balance"), 3);
}

#[test]
fn nothing_is_pending_unless_in_progress_without_a_running_session() {
    let mut service = service();
    let task = service.create_task("fresh", 1, ts()).expect("create");
    assert_eq!(service.pending_next_phase(task.id()).expect("pending"), None);
    assert_eq!(service.pending_next_phase(TaskId::new(77)).expect("pending"), None);
    service.start_task(task.id(), ts()).expect("start");
    assert_eq!(service.pending_next_phase(task.id()).expect("pending"), None);
    // Starting a phase while one runs changes nothing.
    service.start_next_phase(task.id(), ts()).expect("no-op");
    assert_eq!(service.store().session_count(), 1);
    service.pause_task(task.id(), ts()).expect("pause");
    assert_eq!(service.pending_next_phase(task.id()).expect("pending"), None);
}

#[test]
fn quick_jot_titles_come_from_the_first_non_blank_line() {
    let mut service = service();
    let task = service.create_task("work", 1, ts()).expect("create");
    let skipped = service.quick_jot(task.id(), "   \nbody", ts()).expect("jot");
    assert_eq!(skipped.title(), "body");
    let leading = service.quick_jot(task.id(), "\n  hello  \nworld", ts()).expect("jot");
    assert_eq!(leading.title(), "hello");
    let empty = service.quick_jot(task.id(), "", ts()).expect("jot");
    assert_eq!(empty.title(), "Quick note");
    let blank = service.quick_jot(task.id(), "  \n\t\n", ts()).expect("jot");
    assert_eq!(blank.title(), "Quick note");
    let long_line = "x".repeat(100);
    let long = service.quick_jot(task.id(), &long_line, ts()).expect("jot");
    assert_eq!(long.title(), "x".repeat(80));
    let windows = service.quick_jot(task.id(), "  hello \r\nworld", ts()).expect("jot");
    assert_eq!(windows.title(), "hello");
    let missing = service.quick_jot(TaskId::new(99), "x", ts()).expect_err("no such task");
    assert_eq!(missing, Error::Repository(RepositoryError::NotFound));
}

#[test]
fn links_resolve_to_the_first_listed_note_and_skip_the_note_itself() {
    let mut service = service();
    let older = service.create_note("Topic", "", ts()).expect("older");
    let later = Timestamp::from_timestamp(1_700_000_100, 0).expect("valid");
    let newer = service.create_note("Topic", "", later).expect("newer");
    let source = service.create_note("Source", "[[Topic]] [[Topic]] [[Source]]", ts()).expect("source");
    // The most recently updated "Topic" is listed first, so it is the one linked.
    assert_eq!(service.store().note_links(source.id()), vec![newer.id()]);
    assert!(service.note_backlinks(older.id()).expect("none").is_empty());
    // Pinning the older one moves it to the front of the listing.
    service.set_note_pinned(older.id(), true, ts()).expect("pin");
    service
        .save_note_content(source.id(), "Source".to_owned(), "[[Topic]]".to_owned(), ts())
        .expect("save");
    assert_eq!(service.store().note_links(source.id()), vec![older.id()]);
}

#[test]
fn note_flags_and_tags_report_missing_notes() {
    let mut service = service();
    assert!(matches!(service.set_note_pinned(NoteId::new(5), true, ts()), Err(Error::NoteNotFound)));
    assert!(matches!(service.set_note_archived(NoteId::new(5), true, ts()), Err(Error::NoteNotFound)));
    assert_eq!(
        service.set_note_tags(NoteId::new(5), &["a".to_owned()]),
        Err(Error::Repository(RepositoryError::NotFound))
    );
    assert_eq!(service.set_note_tags(NoteId::new(5), &[]), Ok(()));
    assert!(service.note_tags(NoteId::new(5)).expect("none").is_empty());
    let note = service.create_note("n", "", ts()).expect("create");
    service.set_note_archived(note.id(), true, ts()).expect("archive");
    assert!(service.list_notes().expect("list")[0].archived());
    let hits = service.search_notes("N").expect("search");
    assert_eq!(hits.len(), 1);
}

#[test]
fn error_messages_read_as_documented() {
    assert_eq!(Error::TaskNotFound.message(), "task not found");
    assert_eq!(Error::NoteNotFound.message(), "note not found");
    assert_eq!(Error::TaskNotActive.message(), "task is not active");
    assert_eq!(Error::NoRunningSession.message(), "no running session for the task");
    assert_eq!(Error::Repository(RepositoryError::NotFound).message(), "entity not found");
    assert_eq!(
        Error::Repository(RepositoryError::Backend { message: "disk".to_owned() }).message(),
        "storage backend error: disk"
    );
}
