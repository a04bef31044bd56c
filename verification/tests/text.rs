use std::collections::BTreeSet;

use jotphant::domain::config::{AppConfig, Language, ThemeChoice};
use jotphant::domain::pomodoro::PomodoroConfig;
use jotphant::domain::ids::TaskId;
use jotphant::domain::session::TimerPhase;
use jotphant::domain::task::{Task, TaskStatus};
use jotphant::domain::wikilink::extract_links;
use jotphant::localization::{catalog_source, parse_catalog, Localizer};
use jotphant::ui::{
    advance_label, format_mmss, parse_tags, phase_label, relative_time, resolve_drop, Action,
    bank_minutes, entered_text, SettingsDraft,
};
use jotphant::time::Timestamp;

// --- wiki-links ---

#[test]
fn extracts_a_single_link() {
    assert_eq!(extract_links("see [[Foo]] here"), vec!["Foo".to_owned()]);
}

#[test]
fn extracts_multiple_links_in_order() {
    assert_eq!(
        extract_links("[[Alpha]] then [[Beta]]"),
        vec!["Alpha".to_owned(), "Beta".to_owned()]
    );
}

#[test]
fn trims_whitespace_inside_brackets() {
    assert_eq!(extract_links("[[  Foo Bar  ]]"), vec!["Foo Bar".to_owned()]);
}

#[test]
fn ignores_empty_targets() {
    assert_eq!(extract_links("[[]] [[X]]"), vec!["X".to_owned()]);
}

#[test]
fn ignores_unterminated_brackets() {
    assert!(extract_links("[[Foo").is_empty());
}

#[test]
fn deduplicates_repeated_targets() {
    assert_eq!(extract_links("[[A]] and [[A]]"), vec!["A".to_owned()]);
}

#[test]
fn returns_empty_when_there_are_no_links() {
    assert!(extract_links("plain text, no links").is_empty());
}

#[test]
fn nested_and_unicode_brackets_follow_the_first_closing_pair() {
    // The target runs from the first `[[` to the next `]]`, brackets included.
    assert_eq!(extract_links("[[[Foo]]"), vec!["[Foo".to_owned()]);
    // Unicode whitespace is trimmed too, and non-ASCII titles survive.
    assert_eq!(extract_links("[[\u{3000}Çay\u{a0}]]"), vec!["Çay".to_owned()]);
    // A blank target is skipped, and scanning resumes after its closing pair.
    assert_eq!(extract_links("[[  ]]x[[B]][[ B ]]"), vec!["B".to_owned()]);
    // An unterminated `[[` stops the scan even if a later pair would close.
    assert!(extract_links("[[a ] b").is_empty());
}

// --- localization ---

#[test]
fn lookup_finds_translations_and_interpolates() {
    let localizer = Localizer::new(Language::English);
    assert_eq!(localizer.t("board.add"), "Add");
    assert_eq!(
        localizer.t_args(
            "app.bank_balance",
            &[("pomos", "11".to_owned()), ("minutes", "55".to_owned())],
        ),
        "Bank: 11 pomos (≈ 55 min)"
    );
}

#[test]
fn missing_keys_fall_back_to_english_then_to_the_key() {
    let localizer = Localizer::from_entries(
        Vec::new(),
        vec![("known".to_owned(), "from english".to_owned())],
    );
    assert_eq!(localizer.t("known"), "from english");
    assert_eq!(localizer.t("totally.unknown"), "totally.unknown");
}

#[test]
fn locale_tags_map_to_supported_languages() {
    assert_eq!(Language::from_locale("en-US"), Some(Language::English));
    assert_eq!(Language::from_locale("en"), Some(Language::English));
    assert_eq!(Language::from_locale("tr-TR"), Some(Language::Turkish));
    assert_eq!(Language::from_locale("es-MX"), Some(Language::Spanish));
    assert_eq!(Language::from_locale("az-Latn-AZ"), Some(Language::Azerbaijani));
    assert_eq!(Language::from_locale("xx-YY"), None);
}

#[test]
fn every_language_is_found_from_its_code_in_any_case_and_with_a_region() {
    for language in Language::ALL {
        assert_eq!(Language::from_locale(language.code()), Some(language));
        let upper = format!("{}_XX", language.code().to_uppercase());
        assert_eq!(Language::from_locale(&upper), Some(language));
        let dashed = format!("{}-Latn", language.code());
        assert_eq!(Language::from_locale(&dashed), Some(language));
    }
}

#[test]
fn every_language_catalog_has_exactly_the_english_keys() {
    let english: BTreeSet<String> = parse_catalog(catalog_source(Language::English))
        .expect("english catalog parses")
        .into_iter()
        .map(|(key, _)| key)
        .collect();
    assert!(!english.is_empty());
    for language in Language::ALL {
        let keys: BTreeSet<String> = parse_catalog(catalog_source(language))
            .unwrap_or_else(|error| panic!("{} catalog is invalid: {error}", language.code()))
            .into_iter()
            .map(|(key, _)| key)
            .collect();
        let missing: Vec<_> = english.difference(&keys).collect();
        let extra: Vec<_> = keys.difference(&english).collect();
        assert!(
            missing.is_empty() && extra.is_empty(),
            "{} catalog mismatch — missing: {missing:?}, extra: {extra:?}",
            language.code()
        );
    }
}

#[test]
fn non_english_lookups_use_their_catalog() {
    let turkish = Localizer::new(Language::Turkish);
    assert_eq!(turkish.t("board.add"), "Ekle");
    let spanish = Localizer::new(Language::Spanish);
    assert_eq!(spanish.t("board.add"), "Añadir");
    let azerbaijani = Localizer::new(Language::Azerbaijani);
    assert_eq!(azerbaijani.t("board.add"), "Əlavə et");
}

#[test]
fn nested_sections_flatten_to_dotted_keys() {
    let entries =
        parse_catalog("a:\n  b:\n    c: \"deep\"\n  d: \"shallow\"\n").expect("fixture parses");
    assert_eq!(
        entries,
        vec![
            ("a.b.c".to_owned(), "deep".to_owned()),
            ("a.d".to_owned(), "shallow".to_owned())
        ]
    );
}

#[test]
fn non_string_values_are_rejected() {
    assert!(parse_catalog("a: 5\n").is_err());
}

#[test]
fn catalog_errors_name_the_offending_key() {
    assert_eq!(
        parse_catalog("a:\n  b: 5\n").expect_err("number value"),
        "value at \"a.b\" must be a string, got Number(5)"
    );
    assert_eq!(
        parse_catalog("a:\n  1: \"x\"\n").expect_err("number key"),
        "non-string key under \"a\""
    );
    assert!(parse_catalog("a: [").is_err());
}

#[test]
fn fallback_and_placeholders_behave_as_documented() {
    let localizer = Localizer::from_entries(
        vec![
            ("greet".to_owned(), "Hi {name}, {name}!".to_owned()),
            ("greet".to_owned(), "Hello {name}, {name}!".to_owned()),
        ],
        vec![("only.english".to_owned(), "{x}{x}{y}".to_owned())],
    );
    // A later entry for the same key wins, as a map insert would.
    assert_eq!(localizer.t("greet"), "Hello {name}, {name}!");
    assert_eq!(localizer.t_args("greet", &[("name", "Ada".to_owned())]), "Hello Ada, Ada!");
    assert_eq!(
        localizer.t_args("only.english", &[("x", "{y}".to_owned()), ("y", "z".to_owned())]),
        "zzz"
    );
    assert_eq!(localizer.t_args("missing.{k}", &[("k", "v".to_owned())]), "missing.v");
    // The English catalog is consulted when a key is missing from the chosen one.
    assert_eq!(localizer.t("only.english"), "{x}{x}{y}");
    let turkish = Localizer::new(Language::Turkish);
    assert_eq!(
        turkish.t_args("app.bank_balance", &[("pomos", "2".to_owned()), ("minutes", "10".to_owned())]),
        "Banka: 2 pomo (≈ 10 dk)"
    );
    assert!(Localizer::try_new(Language::Spanish).is_some());
}

// --- board helpers ---

fn at(secs: i64) -> Timestamp {
    Timestamp::from_timestamp(secs, 0).expect("valid timestamp")
}

fn task_with(id: i64, status: TaskStatus) -> Task {
    Task::from_fields(
        TaskId::new(id),
        "t".to_owned(),
        String::new(),
        status,
        1,
        None,
        None,
        None,
        None,
        None,
        at(0),
        None,
    )
}

#[test]
fn format_mmss_pads_and_clamps() {
    assert_eq!(format_mmss(1500), "25:00");
    assert_eq!(format_mmss(65), "01:05");
    assert_eq!(format_mmss(0), "00:00");
    assert_eq!(format_mmss(-5), "00:00");
}

#[test]
fn format_mmss_keeps_every_minute_digit() {
    assert_eq!(format_mmss(6000), "100:00");
    assert_eq!(format_mmss(599), "09:59");
    assert_eq!(format_mmss(i64::MIN), "00:00");
    assert_eq!(format_mmss(i64::MAX), format!("{:02}:{:02}", i64::MAX / 60, i64::MAX % 60));
}

#[test]
fn relative_time_scales_with_age() {
    let now = at(1_000_000);
    let ago = |seconds_ago: i64| at(1_000_000 - seconds_ago);
    assert_eq!(relative_time(ago(5), now), "just now");
    assert_eq!(relative_time(ago(300), now), "5 min ago");
    assert_eq!(relative_time(ago(2 * 3600), now), "2 h ago");
    assert_eq!(relative_time(ago(30 * 3600), now), "yesterday");
    assert_eq!(relative_time(ago(3 * 86_400), now), "3 days ago");
    // Older than a week falls back to the date.
    let expected = chrono::DateTime::from_timestamp(1_000_000 - 30 * 86_400, 0)
        .expect("valid timestamp")
        .format("%Y-%m-%d")
        .to_string();
    assert_eq!(relative_time(ago(30 * 86_400), now), expected);
}

#[test]
fn relative_time_edges() {
    let now = at(1_000_000);
    // The future reads as "just now".
    assert_eq!(relative_time(at(1_000_100), now), "just now");
    assert_eq!(relative_time(at(1_000_000 - 59), now), "just now");
    assert_eq!(relative_time(at(1_000_000 - 60), now), "1 min ago");
    assert_eq!(relative_time(at(1_000_000 - 86_399), now), "23 h ago");
    assert_eq!(relative_time(at(1_000_000 - 7 * 86_400 + 1), now), "6 days ago");
    assert_eq!(relative_time(at(-86_400 * 8), at(0)), "1969-12-24");
}

#[test]
fn resolve_drop_maps_valid_moves() {
    let tasks = [
        task_with(1, TaskStatus::Todo),
        task_with(2, TaskStatus::InProgress),
        task_with(3, TaskStatus::Paused),
    ];
    assert!(matches!(
        resolve_drop(TaskStatus::InProgress, TaskId::new(1), &tasks),
        Some(Action::Start(_))
    ));
    assert!(matches!(
        resolve_drop(TaskStatus::Paused, TaskId::new(2), &tasks),
        Some(Action::Pause(_))
    ));
    assert!(matches!(
        resolve_drop(TaskStatus::Done, TaskId::new(2), &tasks),
        Some(Action::CompleteTask(_))
    ));
    assert!(matches!(
        resolve_drop(TaskStatus::InProgress, TaskId::new(3), &tasks),
        Some(Action::Start(_))
    ));
}

#[test]
fn resolve_drop_rejects_invalid_moves() {
    let tasks = [task_with(1, TaskStatus::Todo), task_with(2, TaskStatus::InProgress)];
    // Todo cannot jump straight to Done.
    assert!(resolve_drop(TaskStatus::Done, TaskId::new(1), &tasks).is_none());
    // Nothing transitions back to Todo.
    assert!(resolve_drop(TaskStatus::Todo, TaskId::new(2), &tasks).is_none());
    // Dropping onto the same column is a no-op (no self-transition).
    assert!(resolve_drop(TaskStatus::Todo, TaskId::new(1), &tasks).is_none());
    // Unknown task id.
    assert!(resolve_drop(TaskStatus::Done, TaskId::new(99), &tasks).is_none());
    // Cancelling is never a drop.
    assert!(resolve_drop(TaskStatus::Cancelled, TaskId::new(2), &tasks).is_none());
}

#[test]
fn labels_name_the_phase_and_the_early_end() {
    assert_eq!(phase_label(TimerPhase::Focus), "Focus");
    assert_eq!(phase_label(TimerPhase::ShortBreak), "Short break");
    assert_eq!(phase_label(TimerPhase::LongBreak), "Long break");
    assert_eq!(advance_label(TimerPhase::Focus), "Complete pomo");
    assert_eq!(advance_label(TimerPhase::ShortBreak), "Skip break");
    assert_eq!(advance_label(TimerPhase::LongBreak), "Skip break");
}

#[test]
fn tags_are_split_at_commas_trimmed_and_blank_ones_dropped() {
    assert_eq!(parse_tags(" work, home ,,  , rust"), vec!["work", "home", "rust"]);
    assert!(parse_tags("").is_empty());
    assert!(parse_tags(" , ").is_empty());
    assert_eq!(parse_tags("a b"), vec!["a b"]);
}

#[test]
fn settings_round_trip_through_the_form() {
    let config = AppConfig::new(
        PomodoroConfig::new(50 * 60, 10 * 60, 20 * 60, 3, false, true),
        8,
        ThemeChoice::Dark,
        Language::Azerbaijani,
    );
    let draft = SettingsDraft::from_config(&config);
    assert_eq!(draft.focus_minutes, 50);
    assert_eq!(draft.long_break_after, 3);
    assert_eq!(draft.to_config(), config);
    let mut zero = draft;
    zero.long_break_after = 0;
    zero.focus_minutes = u32::MAX;
    let clamped = zero.to_config();
    assert_eq!(clamped.pomodoro().long_break_after(), 1);
    assert_eq!(clamped.pomodoro().duration_seconds(TimerPhase::Focus), u32::MAX);
}

#[test]
fn entered_text_is_trimmed_and_required() {
    assert_eq!(entered_text("  write tests \n"), Some("write tests".to_owned()));
    assert_eq!(entered_text(" \t "), None);
    assert_eq!(entered_text(""), None);
}

#[test]
fn the_bank_is_worth_its_pomos_at_the_rate() {
    assert_eq!(bank_minutes(11, 5), Some(55));
    assert_eq!(bank_minutes(-3, 5), Some(0));
    assert_eq!(bank_minutes(i64::MAX, 2), None);
    assert_eq!(bank_minutes(i64::MAX, 1), Some(i64::MAX));
}
