//! The configuration file's schema and its conversion to and from [`AppConfig`].
//!
//! The file uses human-friendly **minutes**; the domain uses seconds, so the conversion
//! happens here, at the boundary. Reading and writing the TOML text is the persistence
//! adapter's job; it fills these plain records, which hold the defaults for keys the
//! file leaves out.

use vstd::prelude::*;

use crate::domain::config::{
    language_code, spec_from_locale, AppConfig, AppConfigView, Language, ThemeChoice,
    lemma_code_round_trip,
};
use crate::domain::pomodoro::{PomodoroConfig, PomodoroConfigView};
use crate::domain::session::TimerPhase;

verus! {

/// The `[ui]` theme value.
#[derive(Clone, Copy, Debug, PartialEq, Eq, Structural)]
pub enum ThemeDto {
    Light,
    Dark,
}

/// The `[pomodoro]` section, durations in minutes.
#[derive(Clone, Copy, Debug, PartialEq, Eq, Structural)]
pub struct PomodoroDto {
    pub focus_minutes: u32,
    pub short_break_minutes: u32,
    pub long_break_minutes: u32,
    pub long_break_after: u32,
    pub auto_start_break: bool,
    pub auto_start_focus: bool,
}

/// The `[rewards]` section.
#[derive(Clone, Copy, Debug, PartialEq, Eq, Structural)]
pub struct RewardsDto {
    pub leisure_minutes_per_pomo: u32,
}

/// The `[ui]` section. `language` is a two-letter code of a catalog (e.g. `"en"`);
/// an unknown code falls back to English rather than failing the load.
pub struct UiDto {
    pub theme: ThemeDto,
    pub language: String,
}

/// The whole configuration file.
pub struct ConfigDto {
    pub pomodoro: PomodoroDto,
    pub rewards: RewardsDto,
    pub ui: UiDto,
}

/// The abstract contents of a [`ConfigDto`].
pub ghost struct ConfigDtoView {
    pub pomodoro: PomodoroDto,
    pub rewards: RewardsDto,
    pub theme: ThemeDto,
    pub language: Seq<char>,
}

impl View for ConfigDto {
    type V = ConfigDtoView;

    open spec fn view(&self) -> ConfigDtoView {
        ConfigDtoView {
            pomodoro: self.pomodoro,
            rewards: self.rewards,
            theme: self.ui.theme,
            language: self.ui.language@,
        }
    }
}

impl Default for ThemeDto {
    fn default() -> (r: Self)
        ensures
            r == ThemeDto::Light,
    {
        ThemeDto::Light
    }
}

impl Default for PomodoroDto {
    fn default() -> (r: Self)
        ensures
            r == (PomodoroDto {
                focus_minutes: 25,
                short_break_minutes: 5,
                long_break_minutes: 15,
                long_break_after: 4,
                auto_start_break: true,
                auto_start_focus: true,
            }),
    {
        PomodoroDto {
            focus_minutes: 25,
            short_break_minutes: 5,
            long_break_minutes: 15,
            long_break_after: 4,
            auto_start_break: true,
            auto_start_focus: true,
        }
    }
}

impl Default for RewardsDto {
    fn default() -> (r: Self)
        ensures
            r == (RewardsDto { leisure_minutes_per_pomo: 5 }),
    {
        RewardsDto { leisure_minutes_per_pomo: 5 }
    }
}

impl Default for UiDto {
    fn default() -> (r: Self)
        ensures
            r.theme == ThemeDto::Light,
            r.language@ == language_code(Language::English),
    {
        UiDto { theme: ThemeDto::Light, language: Language::English.code().to_owned() }
    }
}

impl Default for ConfigDto {
    fn default() -> (r: Self)
        ensures
            r.pomodoro == PomodoroDto::default_spec(),
            r.rewards == (RewardsDto { leisure_minutes_per_pomo: 5 }),
            r.ui.theme == ThemeDto::Light,
            r.ui.language@ == language_code(Language::English),
    {
        ConfigDto { pomodoro: PomodoroDto::default(), rewards: RewardsDto::default(), ui: UiDto::default() }
    }
}

impl PomodoroDto {
    /// The default `[pomodoro]` section.
    pub open spec fn default_spec() -> PomodoroDto {
        PomodoroDto {
            focus_minutes: 25,
            short_break_minutes: 5,
            long_break_minutes: 15,
            long_break_after: 4,
            auto_start_break: true,
            auto_start_focus: true,
        }
    }
}

impl ThemeDto {
    /// The domain theme this value names.
    pub fn into_domain(self) -> (r: ThemeChoice)
        ensures
            r == theme_of(self),
    {
        match self {
            ThemeDto::Light => ThemeChoice::Light,
            ThemeDto::Dark => ThemeChoice::Dark,
        }
    }

    /// The file value for a domain theme.
    pub fn from_domain(theme: ThemeChoice) -> (r: Self)
        ensures
            r == theme_dto_of(theme),
    {
        match theme {
            ThemeChoice::Light => ThemeDto::Light,
            ThemeChoice::Dark => ThemeDto::Dark,
        }
    }
}

/// The domain theme a file value names.
pub open spec fn theme_of(t: ThemeDto) -> ThemeChoice {
    match t {
        ThemeDto::Light => ThemeChoice::Light,
        ThemeDto::Dark => ThemeChoice::Dark,
    }
}

/// The file value for a domain theme.
pub open spec fn theme_dto_of(t: ThemeChoice) -> ThemeDto {
    match t {
        ThemeChoice::Light => ThemeDto::Light,
        ThemeChoice::Dark => ThemeDto::Dark,
    }
}

/// `minutes` in seconds, saturating at `u32::MAX`.
pub open spec fn minutes_as_seconds(minutes: u32) -> u32 {
    if minutes * 60 <= u32::MAX {
        (minutes * 60) as u32
    } else {
        u32::MAX
    }
}

/// `minutes` in seconds, saturating at `u32::MAX` (`u32::saturating_mul`).
pub(crate) fn to_seconds(minutes: u32) -> (r: u32)
    ensures
        r == minutes_as_seconds(minutes),
{
    match minutes.checked_mul(60) {
        Some(seconds) => seconds,
        None => u32::MAX,
    }
}

/// The configuration a file describes.
pub open spec fn config_of_file(d: ConfigDtoView) -> AppConfigView {
    AppConfigView {
        pomodoro: PomodoroConfigView {
            focus_seconds: minutes_as_seconds(d.pomodoro.focus_minutes),
            short_break_seconds: minutes_as_seconds(d.pomodoro.short_break_minutes),
            long_break_seconds: minutes_as_seconds(d.pomodoro.long_break_minutes),
            long_break_after: if d.pomodoro.long_break_after >= 1 {
                d.pomodoro.long_break_after
            } else {
                1
            },
            auto_start_break: d.pomodoro.auto_start_break,
            auto_start_focus: d.pomodoro.auto_start_focus,
        },
        leisure_minutes_per_pomo: d.rewards.leisure_minutes_per_pomo,
        theme: theme_of(d.theme),
        language: match spec_from_locale(d.language) {
            Some(language) => language,
            None => Language::English,
        },
    }
}

/// The file describing a configuration (durations in whole minutes, rounded down).
pub open spec fn file_of_config(c: AppConfigView) -> ConfigDtoView {
    ConfigDtoView {
        pomodoro: PomodoroDto {
            focus_minutes: c.pomodoro.focus_seconds / 60,
            short_break_minutes: c.pomodoro.short_break_seconds / 60,
            long_break_minutes: c.pomodoro.long_break_seconds / 60,
            long_break_after: c.pomodoro.long_break_after,
            auto_start_break: c.pomodoro.auto_start_break,
            auto_start_focus: c.pomodoro.auto_start_focus,
        },
        rewards: RewardsDto { leisure_minutes_per_pomo: c.leisure_minutes_per_pomo },
        theme: theme_dto_of(c.theme),
        language: language_code(c.language),
    }
}

impl ConfigDto {
    /// The configuration this file describes: minutes become seconds (saturating), a
    /// long-break cadence below one becomes one, and an unknown language code becomes
    /// English.
    pub fn into_domain(self) -> (r: AppConfig)
        ensures
            r@ == config_of_file(self@),
    {
        let language = match Language::from_locale(self.ui.language.as_str()) {
            Some(language) => language,
            None => Language::English,
        };
        AppConfig::new(
            PomodoroConfig::new(
                to_seconds(self.pomodoro.focus_minutes),
                to_seconds(self.pomodoro.short_break_minutes),
                to_seconds(self.pomodoro.long_break_minutes),
                self.pomodoro.long_break_after,
                self.pomodoro.auto_start_break,
                self.pomodoro.auto_start_focus,
            ),
            self.rewards.leisure_minutes_per_pomo,
            self.ui.theme.into_domain(),
            language,
        )
    }

    /// The file describing `config`, durations in whole minutes.
    pub fn from_domain(config: &AppConfig) -> (r: Self)
        ensures
            r@ == file_of_config(config@),
    {
        let pomodoro = config.pomodoro();
        ConfigDto {
            ui: UiDto {
                theme: ThemeDto::from_domain(config.theme()),
                language: config.language().code().to_owned(),
            },
            pomodoro: PomodoroDto {
                focus_minutes: pomodoro.duration_seconds(TimerPhase::Focus) / 60,
                short_break_minutes: pomodoro.duration_seconds(TimerPhase::ShortBreak) / 60,
                long_break_minutes: pomodoro.duration_seconds(TimerPhase::LongBreak) / 60,
                long_break_after: pomodoro.long_break_after(),
                auto_start_break: pomodoro.should_auto_start(TimerPhase::ShortBreak),
                auto_start_focus: pomodoro.should_auto_start(TimerPhase::Focus),
            },
            rewards: RewardsDto { leisure_minutes_per_pomo: config.leisure_minutes_per_pomo() },
        }
    }
}

/// A configuration whose durations are whole minutes is read back from its file
/// unchanged.
pub proof fn lemma_config_file_round_trip(c: AppConfigView)
    requires
        c.pomodoro.focus_seconds % 60 == 0,
        c.pomodoro.short_break_seconds % 60 == 0,
        c.pomodoro.long_break_seconds % 60 == 0,
        c.pomodoro.long_break_after >= 1,
    ensures
        config_of_file(file_of_config(c)) == c,
{
    lemma_code_round_trip(c.language);
}

/// A file read into a configuration and written back keeps its durations (when they fit
/// in seconds), cadence (when at least one), flags, rate and theme; its language code
/// comes back as the code of the language it names.
pub proof fn lemma_file_config_round_trip(d: ConfigDtoView)
    requires
        d.pomodoro.focus_minutes * 60 <= u32::MAX,
        d.pomodoro.short_break_minutes * 60 <= u32::MAX,
        d.pomodoro.long_break_minutes * 60 <= u32::MAX,
        d.pomodoro.long_break_after >= 1,
    ensures
        file_of_config(config_of_file(d)) == (ConfigDtoView {
            language: language_code(config_of_file(d).language),
            ..d
        }),
{
}

} // verus!
