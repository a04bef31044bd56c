//! The board's decisions that do not need a window: the actions a user can take, how
//! a card dropped on a column becomes one, the settings form, and the texts shown for
//! phases, countdowns, ages and tag input.

use vstd::prelude::*;

use crate::domain::config::{AppConfig, AppConfigView, Language, ThemeChoice};
use crate::domain::ids::{NoteId, TaskId};
use crate::domain::pomodoro::{PomodoroConfig, PomodoroConfigView};
use crate::domain::session::TimerPhase;
use crate::domain::task::{transition_allowed, Task, TaskStatus, TaskView};
use crate::storage::config::{minutes_as_seconds, to_seconds};
use crate::text::{chars_of, string_from_chars, strings_view, trim, trim_bounds};
use crate::time::{elapsed_seconds, seconds_between, Timestamp};

verus! {

// --- Actions ---

/// Which top-level screen is showing.
#[derive(Clone, Copy, Debug, PartialEq, Eq, Structural)]
pub enum Screen {
    Board,
    Notes,
    History,
}

/// A user action captured during rendering and applied afterwards, so rendering never
/// borrows the app while a mutating service call runs.
#[derive(Clone, Copy, Debug, PartialEq, Eq, Structural)]
pub enum Action {
    Create,
    Start(TaskId),
    Pause(TaskId),
    Cancel(TaskId),
    Advance(TaskId),
    CompleteTask(TaskId),
    Open(TaskId),
    SaveDescription(TaskId),
    CloseDetail,
    StartNext(TaskId),
    OpenSettings,
    SaveSettings,
    CloseSettings,
    SwitchView(Screen),
    NewNote,
    SelectNote(NoteId),
    SaveNote(NoteId),
    PinNote(NoteId, bool),
    ArchiveNote(NoteId, bool),
    SearchNotes,
    QuickJot(TaskId),
    EditJot(NoteId),
    SaveJotEdit(NoteId),
    CancelJotEdit,
    DeleteJot(NoteId),
    BeginDrag(TaskId),
    DropOn(TaskStatus),
    CancelDrag,
}

/// The columns shown on the board, in order, with their headings. `Cancelled` is
/// intentionally omitted.
pub fn board_columns() -> (r: [(TaskStatus, &'static str); 4])
    ensures
        r@[0].0 == TaskStatus::Todo && r@[0].1@ == "Todo"@,
        r@[1].0 == TaskStatus::InProgress && r@[1].1@ == "In Progress"@,
        r@[2].0 == TaskStatus::Paused && r@[2].1@ == "Paused"@,
        r@[3].0 == TaskStatus::Done && r@[3].1@ == "Done"@,
{
    [
        (TaskStatus::Todo, "Todo"),
        (TaskStatus::InProgress, "In Progress"),
        (TaskStatus::Paused, "Paused"),
        (TaskStatus::Done, "Done"),
    ]
}

/// The index of the first task with id `id`, if any.
pub open spec fn first_with_id(tasks: Seq<TaskView>, id: TaskId) -> Option<int>
    decreases tasks.len(),
{
    if tasks.len() == 0 {
        None
    } else {
        match first_with_id(tasks.drop_last(), id) {
            Some(k) => Some(k),
            None => if tasks.last().id == id {
                Some(tasks.len() - 1)
            } else {
                None
            },
        }
    }
}

/// The action that moving a task in `status` onto the `target` column performs: none
/// unless the transition is permitted; starting, pausing or completing otherwise (no
/// drop cancels or resets a task).
pub open spec fn drop_action(status: TaskStatus, target: TaskStatus, dropped: TaskId) -> Option<Action> {
    if !transition_allowed(status, target) {
        None
    } else {
        match target {
            TaskStatus::InProgress => Some(Action::Start(dropped)),
            TaskStatus::Paused => Some(Action::Pause(dropped)),
            TaskStatus::Done => Some(Action::CompleteTask(dropped)),
            _ => None,
        }
    }
}

/// Maps dropping task `dropped` onto the `target` column to the action that performs the
/// matching transition, or `None` if the task is unknown or the move is not a valid
/// transition.
pub fn resolve_drop(target: TaskStatus, dropped: TaskId, tasks: &[Task]) -> (r: Option<Action>)
    ensures
        match first_with_id(tasks@.map_values(|t: Task| t@), dropped) {
            None => r is None,
            Some(k) => r == drop_action(tasks@[k]@.status, target, dropped),
        },
{
    broadcast use crate::domain::ids::TaskId::lemma_view_injective;

    let ghost views = tasks@.map_values(|t: Task| t@);
    let mut i: usize = 0;
    while i < tasks.len()
        invariant
            i <= tasks@.len(),
            views == tasks@.map_values(|t: Task| t@),
            first_with_id(views.take(i as int), dropped) is None,
        decreases tasks.len() - i,
    {
        proof {
            assert(views.take(i + 1).drop_last() =~= views.take(i as int));
            assert(views.take(i + 1).last() == tasks@[i as int]@);
        }
        if tasks[i].id().value() == dropped.value() {
            proof {
                crate::domain::ids::TaskId::lemma_view_injective(tasks@[i as int]@.id, dropped);
                assert(views.take(i + 1).last().id == dropped);
                assert(first_with_id(views.take(i + 1), dropped) == Some(i as int));
                lemma_first_with_id_prefix(views, dropped, i as int + 1);
            }
            let current = tasks[i].status();
            if !current.can_transition_to(target) {
                return None;
            }
            return match target {
                TaskStatus::InProgress => Some(Action::Start(dropped)),
                TaskStatus::Paused => Some(Action::Pause(dropped)),
                TaskStatus::Done => Some(Action::CompleteTask(dropped)),
                _ => None,
            };
        }
        i = i + 1;
    }
    proof {
        assert(views.take(i as int) =~= views);
    }
    None
}

/// Once a prefix holds the first match, so does the whole sequence.
proof fn lemma_first_with_id_prefix(tasks: Seq<TaskView>, id: TaskId, j: int)
    requires
        0 <= j <= tasks.len(),
        first_with_id(tasks.take(j), id) is Some,
    ensures
        first_with_id(tasks, id) == first_with_id(tasks.take(j), id),
    decreases tasks.len() - j,
{
    if j < tasks.len() {
        assert(tasks.take(j + 1).drop_last() =~= tasks.take(j));
        lemma_first_with_id_prefix(tasks, id, j + 1);
    } else {
        assert(tasks.take(j) =~= tasks);
    }
}

// --- Labels ---

/// The name of a timer phase.
pub open spec fn phase_name(phase: TimerPhase) -> Seq<char> {
    match phase {
        TimerPhase::Focus => "Focus"@,
        TimerPhase::ShortBreak => "Short break"@,
        TimerPhase::LongBreak => "Long break"@,
    }
}

/// Human-readable name of a timer phase.
pub fn phase_label(phase: TimerPhase) -> (r: &'static str)
    ensures
        r@ == phase_name(phase),
{
    match phase {
        TimerPhase::Focus => "Focus",
        TimerPhase::ShortBreak => "Short break",
        TimerPhase::LongBreak => "Long break",
    }
}

/// Label for the button that ends the current phase early: completing a focus pomo, or
/// skipping a break.
pub fn advance_label(phase: TimerPhase) -> (r: &'static str)
    ensures
        r@ == if phase == TimerPhase::Focus {
            "Complete pomo"@
        } else {
            "Skip break"@
        },
{
    if phase.is_effort() {
        "Complete pomo"
    } else {
        "Skip break"
    }
}

// --- Numbers as text ---

/// The decimal digit for `d < 10`.
pub open spec fn digit_char(d: nat) -> char {
    if d == 0 {
        '0'
    } else if d == 1 {
        '1'
    } else if d == 2 {
        '2'
    } else if d == 3 {
        '3'
    } else if d == 4 {
        '4'
    } else if d == 5 {
        '5'
    } else if d == 6 {
        '6'
    } else if d == 7 {
        '7'
    } else if d == 8 {
        '8'
    } else {
        '9'
    }
}

/// The decimal numeral of `n`, without leading zeros.
pub open spec fn decimal(n: nat) -> Seq<char>
    decreases n,
{
    if n < 10 {
        seq![digit_char(n)]
    } else {
        decimal(n / 10).push(digit_char(n % 10))
    }
}

/// The decimal numeral of `n`, zero-padded to at least two digits (`{:02}`).
pub open spec fn two_digits(n: nat) -> Seq<char> {
    if n < 10 {
        seq!['0'] + decimal(n)
    } else {
        decimal(n)
    }
}

fn digit(d: u64) -> (r: char)
    requires
        d < 10,
    ensures
        r == digit_char(d as nat),
{
    if d == 0 {
        '0'
    } else if d == 1 {
        '1'
    } else if d == 2 {
        '2'
    } else if d == 3 {
        '3'
    } else if d == 4 {
        '4'
    } else if d == 5 {
        '5'
    } else if d == 6 {
        '6'
    } else if d == 7 {
        '7'
    } else if d == 8 {
        '8'
    } else {
        '9'
    }
}

/// Appends the decimal numeral of `n`.
fn push_decimal(n: u64, out: &mut Vec<char>)
    ensures
        final(out)@ == old(out)@ + decimal(n as nat),
    decreases n,
{
    if n >= 10 {
        push_decimal(n / 10, out);
    }
    out.push(digit(n % 10));
    proof {
        if n < 10 {
            assert(old(out)@ + decimal(n as nat) =~= old(out)@.push(digit_char(n as nat)));
        } else {
            assert(old(out)@ + decimal(n as nat) =~= (old(out)@ + decimal((n / 10) as nat)).push(
                digit_char((n % 10) as nat),
            ));
        }
    }
}

/// Appends the numeral of `n` zero-padded to two digits.
fn push_two_digits(n: u64, out: &mut Vec<char>)
    ensures
        final(out)@ == old(out)@ + two_digits(n as nat),
{
    if n < 10 {
        out.push('0');
    }
    let ghost mid = out@;
    push_decimal(n, out);
    proof {
        if n < 10 {
            assert(old(out)@ + two_digits(n as nat) =~= mid + decimal(n as nat));
        }
    }
}

/// `MM:SS` for a second count clamped at zero (minutes keep every digit they need).
pub open spec fn mmss_text(seconds: int) -> Seq<char> {
    let clamped: nat = if seconds < 0 {
        0
    } else {
        seconds as nat
    };
    two_digits(clamped / 60) + seq![':'] + two_digits(clamped % 60)
}

/// Formats a (possibly negative) second count as `MM:SS`, clamped at zero.
pub fn format_mmss(seconds: i64) -> (r: String)
    ensures
        r@ == mmss_text(seconds as int),
{
    let clamped: u64 = if seconds < 0 {
        0
    } else {
        seconds as u64
    };
    let mut out: Vec<char> = Vec::new();
    push_two_digits(clamped / 60, &mut out);
    out.push(':');
    push_two_digits(clamped % 60, &mut out);
    proof {
        assert(out@ =~= mmss_text(seconds as int));
    }
    string_from_chars(out.as_slice())
}

/// How long ago `then` was, `seconds` before now.
pub open spec fn age_text(seconds: int, then: Timestamp) -> Seq<char> {
    if seconds < 60 {
        "just now"@
    } else if seconds < 3600 {
        decimal((seconds / 60) as nat) + " min ago"@
    } else if seconds < 86_400 {
        decimal((seconds / 3600) as nat) + " h ago"@
    } else if seconds < 2 * 86_400 {
        "yesterday"@
    } else if seconds < 7 * 86_400 {
        decimal((seconds / 86_400) as nat) + " days ago"@
    } else {
        crate::time::chrono_iso_date(crate::time::day_of_seconds(then.spec_secs()) as i32)
    }
}

/// The age bands: under a minute reads "just now"; then whole minutes, whole hours, and
/// from two days whole days, each counted down from the age; "yesterday" is exactly the
/// second day, from 24 up to 48 hours.
pub proof fn lemma_age_bands(seconds: int, then: Timestamp)
    ensures
        seconds < 60 ==> age_text(seconds, then) == "just now"@,
        forall|m: nat|
            1 <= m < 60 && m * 60 <= seconds < (m + 1) * 60 ==> age_text(seconds, then) == decimal(
                m,
            ) + " min ago"@,
        forall|h: nat|
            1 <= h < 24 && h * 3600 <= seconds < (h + 1) * 3600 ==> age_text(seconds, then)
                == decimal(h) + " h ago"@,
        forall|d: nat|
            2 <= d < 7 && d * 86_400 <= seconds < (d + 1) * 86_400 ==> age_text(seconds, then)
                == decimal(d) + " days ago"@,
        seconds < 7 * 86_400 ==> (age_text(seconds, then) == "yesterday"@ <==> 86_400 <= seconds < 2
            * 86_400),
{
    reveal_strlit("just now");
    reveal_strlit("yesterday");
    reveal_strlit(" min ago");
    reveal_strlit(" h ago");
    reveal_strlit(" days ago");
    assert forall|m: nat|
        1 <= m < 60 && m * 60 <= seconds < (m + 1) * 60 implies age_text(seconds, then) == decimal(
            m,
        ) + " min ago"@ by {
        assert(seconds / 60 == m) by (nonlinear_arith)
            requires
                m * 60 <= seconds < (m + 1) * 60,
        ;
    }
    assert forall|h: nat|
        1 <= h < 24 && h * 3600 <= seconds < (h + 1) * 3600 implies age_text(seconds, then)
            == decimal(h) + " h ago"@ by {
        assert(seconds / 3600 == h) by (nonlinear_arith)
            requires
                h * 3600 <= seconds < (h + 1) * 3600,
        ;
    }
    assert forall|d: nat|
        2 <= d < 7 && d * 86_400 <= seconds < (d + 1) * 86_400 implies age_text(seconds, then)
            == decimal(d) + " days ago"@ by {
        assert(seconds / 86_400 == d) by (nonlinear_arith)
            requires
                d * 86_400 <= seconds < (d + 1) * 86_400,
        ;
    }
    if seconds < 7 * 86_400 && age_text(seconds, then) == "yesterday"@ {
        let y = "yesterday"@;
        if seconds < 60 {
            assert("just now"@.len() != y.len());
        } else if seconds < 3600 {
            let t = decimal((seconds / 60) as nat) + " min ago"@;
            assert(t[t.len() - 1] == 'o');
            assert(y[y.len() - 1] == 'y');
        } else if seconds < 86_400 {
            let t = decimal((seconds / 3600) as nat) + " h ago"@;
            assert(t[t.len() - 1] == 'o');
            assert(y[y.len() - 1] == 'y');
        } else if seconds >= 2 * 86_400 {
            let t = decimal((seconds / 86_400) as nat) + " days ago"@;
            assert(t[t.len() - 1] == 'o');
            assert(y[y.len() - 1] == 'y');
        }
    }
}

/// Appends the characters of `s`.
fn push_str(s: &str, out: &mut Vec<char>)
    ensures
        final(out)@ == old(out)@ + s@,
{
    let chars = chars_of(s);
    let mut i: usize = 0;
    while i < chars.len()
        invariant
            i <= chars@.len(),
            chars@ == s@,
            out@ == old(out)@ + chars@.take(i as int),
        decreases chars.len() - i,
    {
        out.push(chars[i]);
        i = i + 1;
        proof {
            assert(out@ =~= old(out)@ + chars@.take(i as int));
        }
    }
    proof {
        assert(chars@.take(i as int) =~= chars@);
    }
}

/// Formats how long ago `then` was, relative to `now` ("just now", "5 min ago", …, then
/// the date once it is a week old).
pub fn relative_time(then: Timestamp, now: Timestamp) -> (r: String)
    ensures
        r@ == age_text(seconds_between(then, now), then),
{
    let seconds = elapsed_seconds(&then, &now);
    if seconds < 60 {
        return String::from_str("just now");
    }
    let mut out: Vec<char> = Vec::new();
    if seconds < 3600 {
        push_decimal((seconds / 60) as u64, &mut out);
        push_str(" min ago", &mut out);
    } else if seconds < 86_400 {
        push_decimal((seconds / 3600) as u64, &mut out);
        push_str(" h ago", &mut out);
    } else if seconds < 2 * 86_400 {
        return String::from_str("yesterday");
    } else if seconds < 7 * 86_400 {
        push_decimal((seconds / 86_400) as u64, &mut out);
        push_str(" days ago", &mut out);
    } else {
        return then.date_naive().to_iso_string();
    }
    proof {
        assert(out@ =~= age_text(seconds as int, then));
    }
    string_from_chars(out.as_slice())
}

// --- Tag input ---

/// The tag a comma-separated piece gives: the piece trimmed, if anything is left.
pub open spec fn tag_of_piece(piece: Seq<char>) -> Seq<Seq<char>> {
    if trim(piece).len() > 0 {
        seq![trim(piece)]
    } else {
        Seq::empty()
    }
}

/// The tags of `s`, continuing a piece that has collected `piece` so far: the input is
/// split at every comma, each piece trimmed, and empty pieces dropped.
pub open spec fn tags_from(s: Seq<char>, piece: Seq<char>) -> Seq<Seq<char>>
    decreases s.len(),
{
    if s.len() == 0 {
        tag_of_piece(piece)
    } else if s[0] == ',' {
        tag_of_piece(piece) + tags_from(s.drop_first(), Seq::empty())
    } else {
        tags_from(s.drop_first(), piece.push(s[0]))
    }
}

/// Adds the tag of a finished piece.
fn finish_piece(piece: &Vec<char>, tags: &mut Vec<String>)
    ensures
        strings_view(final(tags)@) == strings_view(old(tags)@) + tag_of_piece(piece@),
{
    let (lo, hi) = trim_bounds(piece);
    if lo < hi {
        let tag = crate::text::string_from_range(piece, lo, hi);
        tags.push(tag);
        proof {
            assert(strings_view(tags@) =~= strings_view(old(tags)@) + tag_of_piece(piece@));
        }
    } else {
        proof {
            assert(strings_view(old(tags)@) + tag_of_piece(piece@) =~= strings_view(old(tags)@));
        }
    }
}

/// Splits a comma-separated tag input into trimmed, non-empty tags.
pub fn parse_tags(input: &str) -> (r: Vec<String>)
    ensures
        strings_view(r@) == tags_from(input@, Seq::empty()),
{
    let chars = chars_of(input);
    let mut tags: Vec<String> = Vec::new();
    let mut piece: Vec<char> = Vec::new();
    let mut i: usize = 0;
    proof {
        assert(chars@.skip(0) =~= chars@);
        assert(strings_view(tags@) + tags_from(chars@.skip(0), piece@) =~= tags_from(input@, Seq::empty()));
    }
    while i < chars.len()
        invariant
            i <= chars@.len(),
            chars@ == input@,
            strings_view(tags@) + tags_from(chars@.skip(i as int), piece@) == tags_from(input@, Seq::empty()),
        decreases chars.len() - i,
    {
        let ghost rest = chars@.skip(i as int);
        proof {
            assert(rest.drop_first() =~= chars@.skip(i + 1));
            assert(rest[0] == chars@[i as int]);
        }
        let ghost p0 = piece@;
        let ghost before = strings_view(tags@);
        if chars[i] == ',' {
            finish_piece(&piece, &mut tags);
            piece = Vec::new();
            proof {
                assert(piece@ =~= Seq::<char>::empty());
                assert(before + tags_from(rest, p0) =~= (before + tag_of_piece(p0)) + tags_from(
                    chars@.skip(i + 1),
                    Seq::empty(),
                ));
            }
        } else {
            piece.push(chars[i]);
        }
        i = i + 1;
    }
    proof {
        assert(chars@.skip(i as int) =~= Seq::<char>::empty());
    }
    finish_piece(&piece, &mut tags);
    tags
}


// --- The settings form ---

/// Editable form state for the settings screen (durations in minutes).
#[derive(Clone, Copy, Debug, PartialEq, Eq, Structural)]
pub struct SettingsDraft {
    pub focus_minutes: u32,
    pub short_break_minutes: u32,
    pub long_break_minutes: u32,
    pub long_break_after: u32,
    pub auto_start_break: bool,
    pub auto_start_focus: bool,
    pub leisure_minutes_per_pomo: u32,
    pub theme: ThemeChoice,
    pub language: Language,
}

/// The form filled from a configuration (durations in whole minutes, rounded down).
pub open spec fn draft_of_config(c: AppConfigView) -> SettingsDraft {
    SettingsDraft {
        focus_minutes: c.pomodoro.focus_seconds / 60,
        short_break_minutes: c.pomodoro.short_break_seconds / 60,
        long_break_minutes: c.pomodoro.long_break_seconds / 60,
        long_break_after: c.pomodoro.long_break_after,
        auto_start_break: c.pomodoro.auto_start_break,
        auto_start_focus: c.pomodoro.auto_start_focus,
        leisure_minutes_per_pomo: c.leisure_minutes_per_pomo,
        theme: c.theme,
        language: c.language,
    }
}

/// The configuration a filled form describes: minutes become seconds (saturating) and a
/// long-break cadence below one becomes one.
pub open spec fn config_of_draft(d: SettingsDraft) -> AppConfigView {
    AppConfigView {
        pomodoro: PomodoroConfigView {
            focus_seconds: minutes_as_seconds(d.focus_minutes),
            short_break_seconds: minutes_as_seconds(d.short_break_minutes),
            long_break_seconds: minutes_as_seconds(d.long_break_minutes),
            long_break_after: if d.long_break_after >= 1 {
                d.long_break_after
            } else {
                1
            },
            auto_start_break: d.auto_start_break,
            auto_start_focus: d.auto_start_focus,
        },
        leisure_minutes_per_pomo: d.leisure_minutes_per_pomo,
        theme: d.theme,
        language: d.language,
    }
}

impl SettingsDraft {
    /// The form filled from `config`.
    pub fn from_config(config: &AppConfig) -> (r: Self)
        ensures
            r == draft_of_config(config@),
    {
        let pomodoro = config.pomodoro();
        SettingsDraft {
            focus_minutes: pomodoro.duration_seconds(TimerPhase::Focus) / 60,
            short_break_minutes: pomodoro.duration_seconds(TimerPhase::ShortBreak) / 60,
            long_break_minutes: pomodoro.duration_seconds(TimerPhase::LongBreak) / 60,
            long_break_after: pomodoro.long_break_after(),
            auto_start_break: pomodoro.should_auto_start(TimerPhase::ShortBreak),
            auto_start_focus: pomodoro.should_auto_start(TimerPhase::Focus),
            leisure_minutes_per_pomo: config.leisure_minutes_per_pomo(),
            theme: config.theme(),
            language: config.language(),
        }
    }

    /// The configuration the form describes.
    pub fn to_config(&self) -> (r: AppConfig)
        ensures
            r@ == config_of_draft(*self),
    {
        AppConfig::new(
            PomodoroConfig::new(
                to_seconds(self.focus_minutes),
                to_seconds(self.short_break_minutes),
                to_seconds(self.long_break_minutes),
                self.long_break_after,
                self.auto_start_break,
                self.auto_start_focus,
            ),
            self.leisure_minutes_per_pomo,
            self.theme,
            self.language,
        )
    }
}

/// Opening the settings and saving them unchanged keeps a configuration whose
/// durations are whole minutes.
pub proof fn lemma_settings_round_trip(c: AppConfigView)
    requires
        c.pomodoro.focus_seconds % 60 == 0,
        c.pomodoro.short_break_seconds % 60 == 0,
        c.pomodoro.long_break_seconds % 60 == 0,
        c.pomodoro.long_break_after >= 1,
    ensures
        config_of_draft(draft_of_config(c)) == c,
{
}

// --- Text input ---

/// What a text field submits: its text trimmed, or nothing when that is empty (a task
/// title is required; an empty jot is not saved).
pub fn entered_text(input: &str) -> (r: Option<String>)
    ensures
        match r {
            Some(text) => text@ == trim(input@) && trim(input@).len() > 0,
            None => trim(input@).len() == 0,
        },
{
    let chars = chars_of(input);
    let (lo, hi) = trim_bounds(&chars);
    if lo == hi {
        None
    } else {
        Some(crate::text::string_from_range(&chars, lo, hi))
    }
}

/// The leisure minutes the bank is worth at `minutes_per_pomo` each (a negative balance
/// is worth nothing), or `None` where that does not fit an `i64`.
pub fn bank_minutes(balance: i64, minutes_per_pomo: u32) -> (r: Option<i64>)
    ensures
        ({
            let worth = if balance < 0 {
                0
            } else {
                balance * minutes_per_pomo
            };
            &&& r is Some <==> worth <= i64::MAX
            &&& r matches Some(m) ==> m == worth
        }),
{
    let pomos: i64 = if balance < 0 {
        0
    } else {
        balance
    };
    let rate: i64 = minutes_per_pomo as i64;
    pomos.checked_mul(rate)
}
} // verus!
