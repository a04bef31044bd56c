//! Pomodoro cycle configuration and the pure phase-sequencing rules.
//!
//! The rules here decide *what* comes next in the Focus → Break → Focus cycle; the app
//! layer applies them by creating sessions.

use vstd::prelude::*;

use crate::domain::session::TimerPhase;

verus! {

/// The abstract contents of a [`PomodoroConfig`].
pub ghost struct PomodoroConfigView {
    pub focus_seconds: u32,
    pub short_break_seconds: u32,
    pub long_break_seconds: u32,
    pub long_break_after: u32,
    pub auto_start_break: bool,
    pub auto_start_focus: bool,
}

/// The configured duration of `phase`.
pub open spec fn spec_duration(c: PomodoroConfigView, phase: TimerPhase) -> u32 {
    match phase {
        TimerPhase::Focus => c.focus_seconds,
        TimerPhase::ShortBreak => c.short_break_seconds,
        TimerPhase::LongBreak => c.long_break_seconds,
    }
}

/// The phase that follows completing `completed`, given the task's completed focus
/// count: a focus is followed by a long break every `long_break_after` focus pomos and
/// by a short break otherwise; every break is followed by a focus.
pub open spec fn spec_next_phase(
    c: PomodoroConfigView,
    completed: TimerPhase,
    completed_focus_count: int,
) -> TimerPhase {
    match completed {
        TimerPhase::Focus => if completed_focus_count % (c.long_break_after as int) == 0 {
            TimerPhase::LongBreak
        } else {
            TimerPhase::ShortBreak
        },
        _ => TimerPhase::Focus,
    }
}

/// Whether `phase` starts without waiting for the user.
pub open spec fn spec_auto_start(c: PomodoroConfigView, phase: TimerPhase) -> bool {
    match phase {
        TimerPhase::Focus => c.auto_start_focus,
        _ => c.auto_start_break,
    }
}

/// Timing and auto-start policy for the Pomodoro cycle.
#[derive(Clone, Copy, Debug, PartialEq, Eq, Structural)]
pub struct PomodoroConfig {
    focus_seconds: u32,
    short_break_seconds: u32,
    long_break_seconds: u32,
    long_break_after: u32,
    auto_start_break: bool,
    auto_start_focus: bool,
}

impl View for PomodoroConfig {
    type V = PomodoroConfigView;

    closed spec fn view(&self) -> PomodoroConfigView {
        PomodoroConfigView {
            focus_seconds: self.focus_seconds,
            short_break_seconds: self.short_break_seconds,
            long_break_seconds: self.long_break_seconds,
            long_break_after: self.long_break_after,
            auto_start_break: self.auto_start_break,
            auto_start_focus: self.auto_start_focus,
        }
    }
}

impl PomodoroConfig {
    /// A long break is due after at least one focus pomo.
    #[verifier::type_invariant]
    closed spec fn cadence_positive(self) -> bool {
        self.long_break_after >= 1
    }

    /// Builds a config. `long_break_after` is clamped to at least 1 so the cycle math
    /// never divides by zero.
    pub fn new(
        focus_seconds: u32,
        short_break_seconds: u32,
        long_break_seconds: u32,
        long_break_after: u32,
        auto_start_break: bool,
        auto_start_focus: bool,
    ) -> (r: Self)
        ensures
            r@ == (PomodoroConfigView {
                focus_seconds,
                short_break_seconds,
                long_break_seconds,
                long_break_after: if long_break_after >= 1 {
                    long_break_after
                } else {
                    1
                },
                auto_start_break,
                auto_start_focus,
            }),
    {
        PomodoroConfig {
            focus_seconds,
            short_break_seconds,
            long_break_seconds,
            long_break_after: if long_break_after >= 1 {
                long_break_after
            } else {
                1
            },
            auto_start_break,
            auto_start_focus,
        }
    }

    /// How many completed focus pomos precede each long break (always at least 1).
    pub fn long_break_after(&self) -> (r: u32)
        ensures
            r == self@.long_break_after,
            r >= 1,
    {
        proof {
            use_type_invariant(self);
        }
        self.long_break_after
    }

    /// The configured duration, in seconds, of a given phase.
    pub fn duration_seconds(&self, phase: TimerPhase) -> (r: u32)
        ensures
            r == spec_duration(self@, phase),
    {
        match phase {
            TimerPhase::Focus => self.focus_seconds,
            TimerPhase::ShortBreak => self.short_break_seconds,
            TimerPhase::LongBreak => self.long_break_seconds,
        }
    }

    /// The phase that should follow completing `completed`.
    ///
    /// `completed_focus_count` is the task's total completed focus pomos (including the
    /// one just finished); every `long_break_after` of them a long break is due.
    pub fn next_phase(&self, completed: TimerPhase, completed_focus_count: u32) -> (r: TimerPhase)
        ensures
            r == spec_next_phase(self@, completed, completed_focus_count as int),
    {
        proof {
            use_type_invariant(self);
        }
        match completed {
            TimerPhase::Focus => {
                if completed_focus_count % self.long_break_after == 0 {
                    TimerPhase::LongBreak
                } else {
                    TimerPhase::ShortBreak
                }
            },
            TimerPhase::ShortBreak | TimerPhase::LongBreak => TimerPhase::Focus,
        }
    }

    /// Whether starting `phase` automatically (vs. awaiting confirmation) is enabled.
    pub fn should_auto_start(&self, phase: TimerPhase) -> (r: bool)
        ensures
            r == spec_auto_start(self@, phase),
    {
        match phase {
            TimerPhase::Focus => self.auto_start_focus,
            TimerPhase::ShortBreak | TimerPhase::LongBreak => self.auto_start_break,
        }
    }
}

/// The default cycle: 25-minute focus, 5-minute short break, 15-minute long break every
/// 4 focus pomos, with breaks and the following focus starting automatically.
pub open spec fn default_pomodoro_view() -> PomodoroConfigView {
    PomodoroConfigView {
        focus_seconds: 1500,
        short_break_seconds: 300,
        long_break_seconds: 900,
        long_break_after: 4,
        auto_start_break: true,
        auto_start_focus: true,
    }
}

impl Default for PomodoroConfig {
    fn default() -> (r: Self)
        ensures
            r@ == default_pomodoro_view(),
    {
        Self::new(25 * 60, 5 * 60, 15 * 60, 4, true, true)
    }
}

/// The cycle law: every break leads back to focus, and a focus leads to a long break
/// exactly when the completed focus count is a multiple of the cadence.
pub proof fn lemma_cycle(c: PomodoroConfigView, completed: TimerPhase, count: int)
    requires
        c.long_break_after >= 1,
        count >= 0,
    ensures
        completed != TimerPhase::Focus ==> spec_next_phase(c, completed, count)
            == TimerPhase::Focus,
        completed == TimerPhase::Focus ==> (spec_next_phase(c, completed, count)
            == TimerPhase::LongBreak <==> exists|k: int|
            k >= 0 && #[trigger] (k * (c.long_break_after as int)) == count),
        completed == TimerPhase::Focus ==> spec_next_phase(c, completed, count)
            != TimerPhase::Focus,
{
    if completed == TimerPhase::Focus {
        let n = c.long_break_after as int;
        if count % n == 0 {
            let k = count / n;
            vstd::arithmetic::div_mod::lemma_fundamental_div_mod(count, n);
            assert(k * n == count) by (nonlinear_arith)
                requires
                    count == n * (count / n) + count % n,
                    count % n == 0,
                    k == count / n,
            ;
            assert(k >= 0) by (nonlinear_arith)
                requires
                    count >= 0,
                    n >= 1,
                    k == count / n,
            ;
        } else {
            if exists|k: int| k >= 0 && #[trigger] (k * n) == count {
                let k = choose|k: int| k >= 0 && #[trigger] (k * n) == count;
                vstd::arithmetic::div_mod::lemma_mod_multiples_basic(k, n);
                assert((k * n) % n == 0);
            }
        }
    }
}

} // verus!
