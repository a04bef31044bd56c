//! Aggregate application configuration.
//!
//! A plain value type mirroring the sections of `config.toml`. Reading and writing the
//! file is the persistence adapter's job; the domain only holds the values.

use vstd::prelude::*;

use crate::domain::pomodoro::{default_pomodoro_view, PomodoroConfig, PomodoroConfigView};
use crate::text::{ascii_lower, chars_eq_ignore_ascii_case, chars_of, eq_ignore_ascii_case};

verus! {

/// The user's color-theme preference.
#[derive(Clone, Copy, Debug, PartialEq, Eq, Structural)]
pub enum ThemeChoice {
    /// Warm light theme (cream background, amber accents).
    Light,
    /// Warm dark theme (charcoal background, amber accents).
    Dark,
}

impl Default for ThemeChoice {
    fn default() -> (r: Self)
        ensures
            r == ThemeChoice::Light,
    {
        ThemeChoice::Light
    }
}

/// The user's display-language preference.
#[derive(Clone, Copy, Debug, PartialEq, Eq, Structural)]
pub enum Language {
    /// English (the reference catalog every other language is checked against).
    English,
    /// Turkish.
    Turkish,
    /// Spanish.
    Spanish,
    /// Azerbaijani.
    Azerbaijani,
}

impl Default for Language {
    fn default() -> (r: Self)
        ensures
            r == Language::English,
    {
        Language::English
    }
}

/// The two-letter code of a language, matching its catalog's name.
pub open spec fn language_code(language: Language) -> Seq<char> {
    match language {
        Language::English => "en"@,
        Language::Turkish => "tr"@,
        Language::Spanish => "es"@,
        Language::Azerbaijani => "az"@,
    }
}

/// The part of a locale tag before its first `-` or `_` (its primary subtag).
pub open spec fn primary_subtag(tag: Seq<char>) -> Seq<char>
    decreases tag.len(),
{
    if tag.len() == 0 || tag[0] == '-' || tag[0] == '_' {
        Seq::empty()
    } else {
        seq![tag[0]] + primary_subtag(tag.drop_first())
    }
}

/// The supported language whose code matches the locale's primary subtag up to ASCII
/// case, checked in picker order.
pub open spec fn spec_from_locale(tag: Seq<char>) -> Option<Language> {
    let primary = primary_subtag(tag);
    if eq_ignore_ascii_case(language_code(Language::English), primary) {
        Some(Language::English)
    } else if eq_ignore_ascii_case(language_code(Language::Turkish), primary) {
        Some(Language::Turkish)
    } else if eq_ignore_ascii_case(language_code(Language::Spanish), primary) {
        Some(Language::Spanish)
    } else if eq_ignore_ascii_case(language_code(Language::Azerbaijani), primary) {
        Some(Language::Azerbaijani)
    } else {
        None
    }
}

proof fn lemma_primary_prefix(tag: Seq<char>, i: int)
    requires
        0 <= i <= tag.len(),
        forall|k: int| 0 <= k < i ==> #[trigger] tag[k] != '-' && tag[k] != '_',
    ensures
        primary_subtag(tag) == tag.take(i) + primary_subtag(tag.skip(i)),
    decreases i,
{
    if i == 0 {
        assert(tag.skip(0) =~= tag);
        assert(tag.take(0) + primary_subtag(tag) =~= primary_subtag(tag));
    } else {
        let t = tag.drop_first();
        assert forall|k: int| 0 <= k < i - 1 implies #[trigger] t[k] != '-' && t[k] != '_' by {
            assert(t[k] == tag[k + 1]);
        }
        lemma_primary_prefix(t, i - 1);
        assert(t.skip(i - 1) =~= tag.skip(i));
        assert(tag.take(i) =~= seq![tag[0]] + t.take(i - 1));
        assert(seq![tag[0]] + (t.take(i - 1) + primary_subtag(t.skip(i - 1))) =~= tag.take(i)
            + primary_subtag(tag.skip(i)));
    }
}

impl Language {
    /// Every selectable language, in picker order.
    pub const ALL: [Language; 4] = [
        Language::English,
        Language::Turkish,
        Language::Spanish,
        Language::Azerbaijani,
    ];

    /// The two-letter language code, matching the catalog file name.
    pub fn code(self) -> (r: &'static str)
        ensures
            r@ == language_code(self),
    {
        match self {
            Language::English => {
                proof {
                    reveal_strlit("en");
                }
                "en"
            },
            Language::Turkish => {
                proof {
                    reveal_strlit("tr");
                }
                "tr"
            },
            Language::Spanish => {
                proof {
                    reveal_strlit("es");
                }
                "es"
            },
            Language::Azerbaijani => {
                proof {
                    reveal_strlit("az");
                }
                "az"
            },
        }
    }

    /// The language's name in itself, for the picker.
    pub fn native_name(self) -> (r: &'static str)
        ensures
            r@ == (match self {
                Language::English => "English"@,
                Language::Turkish => "Türkçe"@,
                Language::Spanish => "Español"@,
                Language::Azerbaijani => "Azərbaycanca"@,
            }),
    {
        match self {
            Language::English => "English",
            Language::Turkish => "Türkçe",
            Language::Spanish => "Español",
            Language::Azerbaijani => "Azərbaycanca",
        }
    }

    /// Matches a system locale tag (e.g. `en-US`, `tr-TR`) to a supported language by
    /// its primary subtag, ignoring ASCII case.
    pub fn from_locale(locale: &str) -> (r: Option<Language>)
        ensures
            r == spec_from_locale(locale@),
    {
        let chars = chars_of(locale);
        let mut end: usize = 0;
        while end < chars.len() && chars[end] != '-' && chars[end] != '_'
            invariant
                end <= chars@.len(),
                forall|k: int| 0 <= k < end ==> #[trigger] chars@[k] != '-' && chars@[k] != '_',
            decreases chars.len() - end,
        {
            end = end + 1;
        }
        let mut primary: Vec<char> = Vec::new();
        let mut i: usize = 0;
        while i < end
            invariant
                i <= end <= chars@.len(),
                primary@ == chars@.take(i as int),
            decreases end - i,
        {
            primary.push(chars[i]);
            i = i + 1;
            proof {
                assert(primary@ =~= chars@.take(i as int));
            }
        }
        proof {
            lemma_primary_prefix(chars@, end as int);
            let rest = chars@.skip(end as int);
            assert(primary_subtag(rest) =~= Seq::<char>::empty()) by {
                if rest.len() > 0 {
                    assert(rest[0] == chars@[end as int]);
                }
            }
            assert(primary@ =~= primary_subtag(locale@));
        }
        let mut k: usize = 0;
        while k < 4
            invariant
                k <= 4,
                primary@ == primary_subtag(locale@),
                forall|j: int| 0 <= j < k ==> !eq_ignore_ascii_case(
                    language_code(#[trigger] Self::ALL@[j]),
                    primary@,
                ),
                Self::ALL@ == seq![
                    Language::English,
                    Language::Turkish,
                    Language::Spanish,
                    Language::Azerbaijani,
                ],
            decreases 4 - k,
        {
            let language = Self::ALL[k];
            let code = chars_of(language.code());
            if chars_eq_ignore_ascii_case(code.as_slice(), primary.as_slice()) {
                return Some(language);
            }
            k = k + 1;
        }
        None
    }
}

/// The abstract contents of an [`AppConfig`].
pub ghost struct AppConfigView {
    pub pomodoro: PomodoroConfigView,
    pub leisure_minutes_per_pomo: u32,
    pub theme: ThemeChoice,
    pub language: Language,
}

/// All configurable settings.
#[derive(Clone, Copy, Debug, PartialEq, Eq, Structural)]
pub struct AppConfig {
    pomodoro: PomodoroConfig,
    leisure_minutes_per_pomo: u32,
    theme: ThemeChoice,
    language: Language,
}

impl View for AppConfig {
    type V = AppConfigView;

    closed spec fn view(&self) -> AppConfigView {
        AppConfigView {
            pomodoro: self.pomodoro@,
            leisure_minutes_per_pomo: self.leisure_minutes_per_pomo,
            theme: self.theme,
            language: self.language,
        }
    }
}

impl AppConfig {
    /// Builds an application config.
    pub fn new(
        pomodoro: PomodoroConfig,
        leisure_minutes_per_pomo: u32,
        theme: ThemeChoice,
        language: Language,
    ) -> (r: Self)
        ensures
            r@ == (AppConfigView {
                pomodoro: pomodoro@,
                leisure_minutes_per_pomo,
                theme,
                language,
            }),
            r.spec_pomodoro() == pomodoro,
    {
        AppConfig { pomodoro, leisure_minutes_per_pomo, theme, language }
    }

    /// The Pomodoro configuration held.
    pub closed spec fn spec_pomodoro(self) -> PomodoroConfig {
        self.pomodoro
    }

    /// The user's color-theme preference.
    pub fn theme(&self) -> (r: ThemeChoice)
        ensures
            r == self@.theme,
    {
        self.theme
    }

    /// The user's display-language preference.
    pub fn language(&self) -> (r: Language)
        ensures
            r == self@.language,
    {
        self.language
    }

    /// This config with a different language (used to seed the first-run default from
    /// the detected system locale).
    pub fn with_language(self, language: Language) -> (r: Self)
        ensures
            r@ == (AppConfigView { language, ..self@ }),
            r.spec_pomodoro() == self.spec_pomodoro(),
    {
        AppConfig { language, ..self }
    }

    /// The Pomodoro cycle configuration.
    pub fn pomodoro(&self) -> (r: PomodoroConfig)
        ensures
            r@ == self@.pomodoro,
            r == self.spec_pomodoro(),
    {
        self.pomodoro
    }

    /// Leisure minutes earned per banked pomo (the reward exchange rate).
    pub fn leisure_minutes_per_pomo(&self) -> (r: u32)
        ensures
            r == self@.leisure_minutes_per_pomo,
    {
        self.leisure_minutes_per_pomo
    }
}

/// The default settings: the default cycle, 5 leisure minutes per pomo, the light
/// theme, and English.
pub open spec fn default_app_config_view() -> AppConfigView {
    AppConfigView {
        pomodoro: default_pomodoro_view(),
        leisure_minutes_per_pomo: 5,
        theme: ThemeChoice::Light,
        language: Language::English,
    }
}

impl Default for AppConfig {
    fn default() -> (r: Self)
        ensures
            r@ == default_app_config_view(),
    {
        AppConfig::new(PomodoroConfig::default(), 5, ThemeChoice::default(), Language::default())
    }
}

/// Every language is found again from its own code.
pub proof fn lemma_code_round_trip(language: Language)
    ensures
        spec_from_locale(language_code(language)) == Some(language),
{
    reveal_strlit("en");
    reveal_strlit("tr");
    reveal_strlit("es");
    reveal_strlit("az");
    let code = language_code(language);
    assert(primary_subtag(code) =~= code) by {
        reveal_with_fuel(primary_subtag, 3);
        assert(code.drop_first().drop_first() =~= Seq::<char>::empty());
    }
    let others = seq![
        Language::English,
        Language::Turkish,
        Language::Spanish,
        Language::Azerbaijani,
    ];
    assert forall|i: int| 0 <= i < 4 && others[i] != language implies !eq_ignore_ascii_case(
        language_code(#[trigger] others[i]),
        code,
    ) by {
        let other = language_code(others[i]);
        if other[0] == code[0] {
            assert(ascii_lower(other[1]) != ascii_lower(code[1]));
        } else {
            assert(ascii_lower(other[0]) != ascii_lower(code[0]));
        }
    }
    assert(eq_ignore_ascii_case(code, code));
    assert(others[0] == Language::English);
    assert(others[1] == Language::Turkish);
    assert(others[2] == Language::Spanish);
}

/// A primary subtag equal to a language's code up to ASCII case matches that
/// language's code and no other.
proof fn lemma_primary_matches_only(language: Language, primary: Seq<char>)
    requires
        eq_ignore_ascii_case(language_code(language), primary),
    ensures
        forall|other: Language| #[trigger] eq_ignore_ascii_case(language_code(other), primary)
            <==> other == language,
        forall|k: int| 0 <= k < primary.len() ==> #[trigger] primary[k] != '-' && primary[k] != '_',
{
    reveal_strlit("en");
    reveal_strlit("tr");
    reveal_strlit("es");
    reveal_strlit("az");
    let code = language_code(language);
    assert forall|other: Language| #[trigger] eq_ignore_ascii_case(language_code(other), primary)
        <==> other == language by {
        let oc = language_code(other);
        if other == language {
        } else if eq_ignore_ascii_case(oc, primary) {
            assert(ascii_lower(oc[0]) == ascii_lower(code[0]));
            assert(ascii_lower(oc[1]) == ascii_lower(code[1]));
        }
    }
    assert forall|k: int| 0 <= k < primary.len() implies #[trigger] primary[k] != '-' && primary[k]
        != '_' by {
        assert(ascii_lower(code[k]) == ascii_lower(primary[k]));
    }
}

/// A locale tag whose primary subtag is a language's code, in any ASCII case, selects
/// that language, alone or followed by `-` or `_` and any region or script.
pub proof fn lemma_locale_selects_language(
    language: Language,
    primary: Seq<char>,
    separator: char,
    rest: Seq<char>,
)
    requires
        eq_ignore_ascii_case(language_code(language), primary),
        separator == '-' || separator == '_',
    ensures
        spec_from_locale(primary) == Some(language),
        spec_from_locale(primary + seq![separator] + rest) == Some(language),
{
    lemma_primary_matches_only(language, primary);
    let n = primary.len() as int;
    lemma_primary_prefix(primary, n);
    assert(primary.skip(n) =~= Seq::<char>::empty());
    assert(primary.take(n) =~= primary);
    assert(primary_subtag(primary) =~= primary);
    let tag = primary + seq![separator] + rest;
    assert forall|k: int| 0 <= k < n implies #[trigger] tag[k] != '-' && tag[k] != '_' by {
        assert(tag[k] == primary[k]);
    }
    lemma_primary_prefix(tag, n);
    assert(tag.skip(n)[0] == separator);
    assert(tag.take(n) =~= primary);
    assert(primary_subtag(tag.skip(n)) =~= Seq::<char>::empty());
    assert(primary_subtag(tag) =~= primary);
    assert(eq_ignore_ascii_case(language_code(Language::English), primary) <==> language
        == Language::English);
    assert(eq_ignore_ascii_case(language_code(Language::Turkish), primary) <==> language
        == Language::Turkish);
    assert(eq_ignore_ascii_case(language_code(Language::Spanish), primary) <==> language
        == Language::Spanish);
    assert(eq_ignore_ascii_case(language_code(Language::Azerbaijani), primary) <==> language
        == Language::Azerbaijani);
}

} // verus!
