use jotphant::domain::bank::{balance, BankTransactionType};
use jotphant::domain::config::{AppConfig, Language, ThemeChoice};
use jotphant::domain::ids::{NoteId, PomodoroSessionId, TaskId};
use jotphant::domain::note::Note;
use jotphant::domain::pomodoro::PomodoroConfig;
use jotphant::domain::repository::RepositoryError;
use jotphant::domain::session::{PomodoroSession, SessionStatus, TimerPhase};
use jotphant::domain::task::{Rating, Task, TaskStatus};
use jotphant::storage::codec::{
    bank_type_from_str, bank_type_to_str, datetime_from_str, datetime_to_str, phase_from_str,
    phase_to_str, rating_from_str, rating_to_str, session_status_from_str, session_status_to_str,
    task_status_from_str,
    task_status_to_str, to_i32, to_u32, unknown,
};
use jotphant::storage::config::{ConfigDto, PomodoroDto, RewardsDto, ThemeDto, UiDto};
use jotphant::storage::memory::{MemoryStore, NoteRow};
use jotphant::time::Timestamp;

fn ts() -> Timestamp {
    Timestamp::from_timestamp(1_700_000_000, 0).expect("valid timestamp")
}

fn store() -> MemoryStore {
    MemoryStore::new()
}

// --- notes ---

#[test]
fn create_then_get_round_trips_a_note() {
    let mut store = store();
    let created = store.create_note("Title", "Some **markdown**", None, ts()).expect("create");
    let fetched = store.get_note(created.id()).expect("exists");
    assert_eq!(fetched, created);
    assert_eq!(fetched.body_markdown(), "Some **markdown**");
    assert!(!fetched.pinned());
}

#[test]
fn list_orders_pinned_first() {
    let mut store = store();
    store.create_note("a", "", None, ts()).expect("create a");
    let mut b = store.create_note("b", "", None, ts()).expect("create b");
    b.set_pinned(true);
    store.update_note(&b).expect("pin b");

    let titles: Vec<String> =
        store.list_notes().iter().map(|note| note.title().to_owned()).collect();
    assert_eq!(titles.first().map(String::as_str), Some("b"));
}

#[test]
fn update_persists_body_and_flags() {
    let mut store = store();
    let mut note = store.create_note("t", "old", None, ts()).expect("create");
    note.set_body("new body".to_owned());
    note.set_archived(true);
    note.touch(ts());
    store.update_note(&note).expect("update");

    let fetched = store.get_note(note.id()).expect("exists");
    assert_eq!(fetched.body_markdown(), "new body");
    assert!(fetched.archived());
}

#[test]
fn update_unknown_note_is_not_found() {
    let mut store = store();
    let ghost = Note::new(NoteId::new(999), "x".to_owned(), String::new(), None, ts());
    assert!(matches!(store.update_note(&ghost), Err(RepositoryError::NotFound)));
}

#[test]
fn search_matches_title_and_body() {
    let mut store = store();
    store.create_note("Shopping", "buy milk", None, ts()).expect("create");
    store.create_note("Ideas", "a milkshake stand", None, ts()).expect("create");
    store.create_note("Unrelated", "nothing here", None, ts()).expect("create");

    let hits = store.search_notes("milk");
    assert_eq!(hits.len(), 2);
}

#[test]
fn tags_are_replaced_wholesale() {
    let mut store = store();
    let note = store.create_note("t", "", None, ts()).expect("create");
    store.set_note_tags(note.id(), &["work".to_owned(), "urgent".to_owned()]).expect("set tags");
    assert_eq!(store.note_tags(note.id()), ["urgent", "work"]);

    store.set_note_tags(note.id(), &["home".to_owned()]).expect("replace tags");
    assert_eq!(store.note_tags(note.id()), ["home"]);
}

#[test]
fn lists_notes_for_a_task_newest_first() {
    let mut store = store();
    let task = store.create_task("t", 1, ts()).expect("task");
    store.create_note("first", "1", Some(task.id()), ts()).expect("n1");
    store.create_note("second", "2", Some(task.id()), ts()).expect("n2");
    store.create_note("unrelated", "x", None, ts()).expect("n3");

    let notes = store.list_notes_for_task(task.id());
    assert_eq!(notes.len(), 2);
    assert_eq!(notes[0].title(), "second");
    assert_eq!(notes[1].title(), "first");
}

#[test]
fn links_produce_backlinks() {
    let mut store = store();
    let a = store.create_note("a", "", None, ts()).expect("create a");
    let b = store.create_note("b", "", None, ts()).expect("create b");
    let target = store.create_note("target", "", None, ts()).expect("create target");

    store.set_note_links(a.id(), &[target.id()]).expect("link a");
    store.set_note_links(b.id(), &[target.id()]).expect("link b");

    let mut backlinks = store.backlinks(target.id());
    backlinks.sort_by_key(|id| id.value());
    assert_eq!(backlinks, vec![a.id(), b.id()]);
    assert!(store.backlinks(a.id()).is_empty());
}

#[test]
fn tags_are_sorted_by_code_point_and_deduplicated() {
    let mut store = store();
    let note = store.create_note("t", "", None, ts()).expect("create");
    let tags = ["b".to_owned(), "B".to_owned(), "a".to_owned(), "b".to_owned(), "é".to_owned()];
    store.set_note_tags(note.id(), &tags).expect("set tags");
    assert_eq!(store.note_tags(note.id()), ["B", "a", "b", "é"]);
}

#[test]
fn links_are_deduplicated_and_must_name_existing_notes() {
    let mut store = store();
    let a = store.create_note("a", "", None, ts()).expect("create a");
    let b = store.create_note("b", "", None, ts()).expect("create b");
    store.set_note_links(a.id(), &[b.id(), b.id(), a.id()]).expect("link");
    assert_eq!(store.note_links(a.id()), vec![b.id(), a.id()]);
    assert_eq!(store.set_note_links(a.id(), &[NoteId::new(9)]), Err(RepositoryError::NotFound));
    assert_eq!(store.note_links(a.id()), vec![b.id(), a.id()]);
    assert_eq!(store.set_note_links(NoteId::new(9), &[]), Ok(()));
}

#[test]
fn listing_breaks_ties_by_recency_then_id() {
    let mut store = store();
    let early = store.create_note("early", "", None, ts()).expect("create");
    let later = Timestamp::from_timestamp(1_700_000_500, 0).expect("valid");
    let recent = store.create_note("recent", "", None, later).expect("create");
    let twin = store.create_note("twin", "", None, ts()).expect("create");
    let ids: Vec<NoteId> = store.list_notes().iter().map(|n| n.id()).collect();
    assert_eq!(ids, vec![recent.id(), early.id(), twin.id()]);
}

#[test]
fn search_ignores_ascii_case() {
    let mut store = store();
    store.create_note("MILK run", "", None, ts()).expect("create");
    store.create_note("other", "Milk", None, ts()).expect("create");
    assert_eq!(store.search_notes("mIlK").len(), 2);
    assert_eq!(store.search_notes("").len(), 2);
}

// --- tasks, sessions, ledger ---

#[test]
fn create_then_get_round_trips_a_task() {
    let mut store = store();
    let created = store.create_task("write storage", 4, ts()).expect("create task");
    assert_eq!(created.status(), TaskStatus::Todo);

    let fetched = store.get_task(created.id()).expect("task exists");
    assert_eq!(fetched, created);
    assert_eq!(fetched.title(), "write storage");
    assert_eq!(fetched.estimated_pomos(), 4);
    assert_eq!(fetched.created_at(), ts());
}

#[test]
fn get_missing_task_returns_none() {
    let store = store();
    assert!(store.get_task(TaskId::new(999)).is_none());
}

#[test]
fn list_returns_all_tasks_in_order() {
    let mut store = store();
    store.create_task("a", 1, ts()).expect("create a");
    store.create_task("b", 2, ts()).expect("create b");
    let titles: Vec<String> = store.list_tasks().iter().map(|task| task.title().to_owned()).collect();
    assert_eq!(titles, vec!["a".to_owned(), "b".to_owned()]);
}

#[test]
fn update_persists_status_and_completed_at() {
    let mut store = store();
    let mut task = store.create_task("finish me", 2, ts()).expect("create");
    task.apply_transition(TaskStatus::InProgress, ts()).expect("start");
    task.apply_transition(TaskStatus::Done, ts()).expect("done");
    store.update_task(&task).expect("update");

    let fetched = store.get_task(task.id()).expect("exists");
    assert_eq!(fetched.status(), TaskStatus::Done);
    assert_eq!(fetched.completed_at(), Some(ts()));
}

#[test]
fn update_unknown_task_is_not_found() {
    let mut store = store();
    let ghost = Task::new(TaskId::new(4242), "ghost".to_owned(), 1, ts());
    assert!(matches!(store.update_task(&ghost), Err(RepositoryError::NotFound)));
}

#[test]
fn find_active_returns_only_the_in_progress_task() {
    let mut store = store();
    store.create_task("idle", 1, ts()).expect("create idle");
    let mut active = store.create_task("busy", 1, ts()).expect("create busy");
    assert!(store.find_active_task().is_none());

    active.apply_transition(TaskStatus::InProgress, ts()).expect("start");
    store.update_task(&active).expect("update");

    let found = store.find_active_task().expect("active exists");
    assert_eq!(found.id(), active.id());
}

#[test]
fn sessions_round_trip_and_list_by_task() {
    let mut store = store();
    let task = store.create_task("focus work", 2, ts()).expect("create task");
    let mut session = store.create_session(task.id(), TimerPhase::Focus, 1500, ts()).expect("create session");
    session.complete(ts());
    store.update_session(&session).expect("update session");

    let sessions = store.list_sessions_for_task(task.id());
    assert_eq!(sessions.len(), 1);
    assert_eq!(sessions[0].status(), SessionStatus::Completed);
    assert_eq!(sessions[0].phase(), TimerPhase::Focus);
    assert_eq!(sessions[0].finished_at(), Some(ts()));
}

#[test]
fn bank_appends_and_balances() {
    let mut store = store();
    let task = store.create_task("earn", 3, ts()).expect("create task");
    store
        .append_transaction(Some(task.id()), 3, BankTransactionType::TaskReward, None, ts())
        .expect("append reward");
    store
        .append_transaction(None, 5, BankTransactionType::TaskReward, None, ts())
        .expect("append reward");

    let ledger = store.list_transactions();
    assert_eq!(ledger.len(), 2);
    assert_eq!(balance(&ledger), 8);
    assert_eq!(store.balance(), 8);
}

#[test]
fn references_to_missing_rows_are_refused() {
    let mut store = store();
    assert_eq!(
        store.create_session(TaskId::new(1), TimerPhase::Focus, 60, ts()).map(|_| ()),
        Err(RepositoryError::NotFound)
    );
    assert_eq!(
        store
            .append_transaction(Some(TaskId::new(3)), 1, BankTransactionType::TaskReward, None, ts())
            .map(|_| ()),
        Err(RepositoryError::NotFound)
    );
    assert_eq!(store.create_note("n", "", Some(TaskId::new(2)), ts()).map(|_| ()), Err(RepositoryError::NotFound));
    assert_eq!(store.task_count(), 0);
    assert_eq!(store.note_count(), 0);
}

// --- loading rows ---

#[test]
fn rows_load_when_ids_and_references_line_up() {
    let task = Task::new(TaskId::new(1), "t".to_owned(), 1, ts());
    let mut session = PomodoroSession::new(PomodoroSessionId::new(1), TaskId::new(1), TimerPhase::Focus, 60, ts());
    session.complete(ts());
    let note = Note::new(NoteId::new(1), "n".to_owned(), "b".to_owned(), Some(TaskId::new(1)), ts());
    let row = NoteRow { note, tags: vec!["a".to_owned(), "b".to_owned()], links: vec![NoteId::new(1)] };
    let store = MemoryStore::from_rows(vec![task], vec![session], Vec::new(), vec![row]).expect("well formed");
    assert_eq!(store.task_count(), 1);
    assert_eq!(store.list_sessions().len(), 1);
    assert_eq!(store.note_tags(NoteId::new(1)), ["a", "b"]);
    assert_eq!(store.note_links(NoteId::new(1)), vec![NoteId::new(1)]);
    assert!(jotphant::app::service::workflow_invariant_holds(&store));
}

#[test]
fn rows_that_break_the_store_shape_are_refused() {
    let gap = Task::new(TaskId::new(2), "t".to_owned(), 1, ts());
    assert!(MemoryStore::from_rows(vec![gap], Vec::new(), Vec::new(), Vec::new()).is_none());
    let orphan = PomodoroSession::new(PomodoroSessionId::new(1), TaskId::new(5), TimerPhase::Focus, 60, ts());
    assert!(MemoryStore::from_rows(Vec::new(), vec![orphan], Vec::new(), Vec::new()).is_none());
    let note = Note::new(NoteId::new(1), "n".to_owned(), String::new(), None, ts());
    let unsorted = NoteRow { note, tags: vec!["b".to_owned(), "a".to_owned()], links: Vec::new() };
    assert!(MemoryStore::from_rows(Vec::new(), Vec::new(), Vec::new(), vec![unsorted]).is_none());
    let note = Note::new(NoteId::new(1), "n".to_owned(), String::new(), None, ts());
    let dangling = NoteRow { note, tags: Vec::new(), links: vec![NoteId::new(2)] };
    assert!(MemoryStore::from_rows(Vec::new(), Vec::new(), Vec::new(), vec![dangling]).is_none());
}

#[test]
fn a_running_session_of_a_paused_task_breaks_the_workflow_invariant() {
    let task = Task::from_fields(
        TaskId::new(1),
        "t".to_owned(),
        String::new(),
        TaskStatus::Paused,
        1,
        None,
        None,
        None,
        None,
        None,
        ts(),
        None,
    );
    let session = PomodoroSession::new(PomodoroSessionId::new(1), TaskId::new(1), TimerPhase::Focus, 60, ts());
    let store = MemoryStore::from_rows(vec![task], vec![session], Vec::new(), Vec::new()).expect("shape");
    assert!(!jotphant::app::service::workflow_invariant_holds(&store));
}

// --- codecs ---

#[test]
fn enum_codes_round_trip() {
    for status in [
        TaskStatus::Todo,
        TaskStatus::InProgress,
        TaskStatus::Paused,
        TaskStatus::Done,
        TaskStatus::Cancelled,
    ] {
        assert_eq!(task_status_from_str(task_status_to_str(status)), Ok(status));
    }
    for phase in [TimerPhase::Focus, TimerPhase::ShortBreak, TimerPhase::LongBreak] {
        assert_eq!(phase_from_str(phase_to_str(phase)), Ok(phase));
    }
    for status in [SessionStatus::Running, SessionStatus::Completed, SessionStatus::Abandoned] {
        assert_eq!(session_status_from_str(session_status_to_str(status)), Ok(status));
    }
    for kind in [BankTransactionType::TaskReward, BankTransactionType::Spend] {
        assert_eq!(bank_type_from_str(bank_type_to_str(kind)), Ok(kind));
    }
    for rating in [Rating::Low, Rating::Mid, Rating::High] {
        assert_eq!(rating_from_str(rating_to_str(rating)), Ok(rating));
    }
    assert!(rating_from_str("Low").is_err());
    assert_eq!(task_status_to_str(TaskStatus::InProgress), "in_progress");
    assert_eq!(phase_to_str(TimerPhase::LongBreak), "long_break");
}

#[test]
fn unknown_codes_name_the_kind_and_the_value() {
    assert_eq!(
        task_status_from_str("Done"),
        Err(RepositoryError::Backend { message: "unknown task status value \"Done\"".to_owned() })
    );
    assert_eq!(
        phase_from_str("nap\n"),
        Err(RepositoryError::Backend { message: "unknown timer phase value \"nap\\n\"".to_owned() })
    );
    assert_eq!(
        unknown("kind", "v"),
        RepositoryError::Backend { message: "unknown kind value \"v\"".to_owned() }
    );
    assert!(session_status_from_str("").is_err());
    assert!(bank_type_from_str("reward").is_err());
}

#[test]
fn integer_columns_narrow_or_fail() {
    assert_eq!(to_u32(7), Ok(7));
    assert_eq!(to_u32(i64::from(u32::MAX)), Ok(u32::MAX));
    assert!(matches!(to_u32(-1), Err(RepositoryError::Backend { .. })));
    assert!(matches!(to_u32(1 << 32), Err(RepositoryError::Backend { .. })));
    assert_eq!(to_i32(-5), Ok(-5));
    assert!(matches!(to_i32(i64::from(i32::MAX) + 1), Err(RepositoryError::Backend { .. })));
}

#[test]
fn timestamps_are_stored_as_rfc3339() {
    let text = datetime_to_str(ts());
    assert_eq!(text, "2023-11-14T22:13:20+00:00");
    assert_eq!(datetime_from_str(&text), Ok(ts()));
    let precise = Timestamp::from_timestamp(-1, 500_000_000).expect("valid");
    assert_eq!(datetime_from_str(&datetime_to_str(precise)), Ok(precise));
    assert_eq!(
        datetime_from_str("2023-11-14T23:13:20+01:00").map(|t| t.timestamp()),
        Ok(1_700_000_000)
    );
    assert!(matches!(datetime_from_str("yesterday"), Err(RepositoryError::Backend { .. })));
}

// --- the configuration file ---

#[test]
fn minutes_in_the_file_become_seconds_in_the_domain() {
    let file = ConfigDto {
        pomodoro: PomodoroDto {
            focus_minutes: 30,
            short_break_minutes: 6,
            long_break_minutes: 20,
            long_break_after: 2,
            auto_start_break: false,
            auto_start_focus: false,
        },
        rewards: RewardsDto { leisure_minutes_per_pomo: 7 },
        ui: UiDto::default(),
    };
    let parsed = file.into_domain();
    assert_eq!(parsed.pomodoro().duration_seconds(TimerPhase::Focus), 1800);
    assert_eq!(parsed.leisure_minutes_per_pomo(), 7);
    assert!(!parsed.pomodoro().should_auto_start(TimerPhase::Focus));
}

#[test]
fn missing_sections_fall_back_to_defaults() {
    let file = ConfigDto {
        pomodoro: PomodoroDto::default(),
        rewards: RewardsDto { leisure_minutes_per_pomo: 9 },
        ui: UiDto::default(),
    };
    let parsed = file.into_domain();
    assert_eq!(parsed.pomodoro(), PomodoroConfig::default());
    assert_eq!(parsed.leisure_minutes_per_pomo(), 9);
    assert_eq!(parsed.theme(), ThemeChoice::Light);
    assert_eq!(ConfigDto::default().into_domain(), AppConfig::default());
}

#[test]
fn defaults_round_trip_through_the_file() {
    let config = AppConfig::default();
    assert_eq!(ConfigDto::from_domain(&config).into_domain(), config);
}

#[test]
fn a_customized_config_round_trips() {
    let config = AppConfig::new(
        PomodoroConfig::new(50 * 60, 10 * 60, 20 * 60, 3, false, true),
        8,
        ThemeChoice::Dark,
        Language::English,
    );
    assert_eq!(ConfigDto::from_domain(&config).into_domain(), config);
}

#[test]
fn unknown_language_codes_fall_back_and_minutes_saturate() {
    let file = ConfigDto {
        pomodoro: PomodoroDto { focus_minutes: u32::MAX, long_break_after: 0, ..PomodoroDto::default() },
        rewards: RewardsDto::default(),
        ui: UiDto { theme: ThemeDto::Dark, language: "zz".to_owned() },
    };
    let parsed = file.into_domain();
    assert_eq!(parsed.language(), Language::English);
    assert_eq!(parsed.theme(), ThemeChoice::Dark);
    assert_eq!(parsed.pomodoro().duration_seconds(TimerPhase::Focus), u32::MAX);
    assert_eq!(parsed.pomodoro().long_break_after(), 1);
    let turkish = ConfigDto {
        pomodoro: PomodoroDto::default(),
        rewards: RewardsDto::default(),
        ui: UiDto { theme: ThemeDto::Light, language: "TR".to_owned() },
    };
    assert_eq!(turkish.into_domain().language(), Language::Turkish);
    // Seconds that are not whole minutes are written rounded down.
    let odd = AppConfig::new(PomodoroConfig::new(119, 60, 60, 4, true, true), 5, ThemeChoice::Light, Language::Spanish);
    let file = ConfigDto::from_domain(&odd);
    assert_eq!(file.pomodoro.focus_minutes, 1);
    assert_eq!(file.ui.language, "es");
}
