//! Reward math: deriving earned effort from session history.
//!
//! Effort is always derived here from completed focus sessions — never read from a
//! counter stored on the task.

use vstd::prelude::*;

use crate::domain::session::{PomodoroSession, SessionStatus, SessionView, TimerPhase};

verus! {

/// Whether a session is a completed focus pomo — the effort that earns reward.
pub open spec fn is_completed_focus(session: SessionView) -> bool {
    session.phase == TimerPhase::Focus && session.status == SessionStatus::Completed
}

/// The number of completed focus sessions in a history.
pub open spec fn completed_focus_count(sessions: Seq<SessionView>) -> nat
    decreases sessions.len(),
{
    if sessions.len() == 0 {
        0
    } else {
        completed_focus_count(sessions.drop_last()) + if is_completed_focus(sessions.last()) {
            1nat
        } else {
            0nat
        }
    }
}

/// The views of a slice of sessions.
pub open spec fn session_views(sessions: Seq<PomodoroSession>) -> Seq<SessionView> {
    sessions.map_values(|s: PomodoroSession| s@)
}

/// `n` clamped to `u32::MAX`.
pub open spec fn saturate_u32(n: nat) -> nat {
    if n <= u32::MAX {
        n
    } else {
        u32::MAX as nat
    }
}

/// A history never has more completed focus sessions than sessions.
pub proof fn lemma_count_bounded(sessions: Seq<SessionView>)
    ensures
        completed_focus_count(sessions) <= sessions.len(),
    decreases sessions.len(),
{
    if sessions.len() > 0 {
        lemma_count_bounded(sessions.drop_last());
    }
}

/// Replacing one session changes the count by the difference of the two sessions'
/// contributions.
pub proof fn lemma_count_update(sessions: Seq<SessionView>, i: int, s: SessionView)
    requires
        0 <= i < sessions.len(),
    ensures
        completed_focus_count(sessions.update(i, s)) + (if is_completed_focus(sessions[i]) {
            1int
        } else {
            0int
        }) == completed_focus_count(sessions) + (if is_completed_focus(s) {
            1int
        } else {
            0int
        }),
    decreases sessions.len(),
{
    if i < sessions.len() - 1 {
        lemma_count_update(sessions.drop_last(), i, s);
        assert(sessions.update(i, s).drop_last() =~= sessions.drop_last().update(i, s));
    } else {
        assert(sessions.update(i, s).drop_last() =~= sessions.drop_last());
    }
}

/// Appending a session adds its contribution to the count.
pub proof fn lemma_count_push(sessions: Seq<SessionView>, s: SessionView)
    ensures
        completed_focus_count(sessions.push(s)) == completed_focus_count(sessions) + if is_completed_focus(s) {
            1nat
        } else {
            0nat
        },
{
    assert(sessions.push(s).drop_last() =~= sessions);
}

/// Counts the completed focus sessions in `sessions` — the effort that earns reward.
///
/// Break phases and abandoned or running sessions do not count. The count saturates at
/// `u32::MAX` for an implausibly long history rather than panicking.
pub fn completed_focus_pomos(sessions: &[PomodoroSession]) -> (r: u32)
    ensures
        r == saturate_u32(completed_focus_count(session_views(sessions@))),
{
    let mut count: usize = 0;
    let mut i: usize = 0;
    while i < sessions.len()
        invariant
            i <= sessions@.len(),
            count == completed_focus_count(session_views(sessions@.take(i as int))),
        decreases sessions.len() - i,
    {
        proof {
            assert(session_views(sessions@.take(i + 1)).drop_last() =~= session_views(
                sessions@.take(i as int),
            ));
            lemma_count_bounded(session_views(sessions@.take(i as int)));
        }
        let session = &sessions[i];
        if session.phase() == TimerPhase::Focus && session.status() == SessionStatus::Completed {
            count = count + 1;
        }
        i = i + 1;
    }
    proof {
        assert(sessions@.take(i as int) =~= sessions@);
    }
    if count > u32::MAX as usize {
        u32::MAX
    } else {
        count as u32
    }
}

/// Converts earned pomos into leisure minutes at the configured rate, saturating at
/// `u32::MAX` rather than overflowing.
pub fn leisure_minutes(pomos: u32, minutes_per_pomo: u32) -> (r: u32)
    ensures
        r == if pomos * minutes_per_pomo <= u32::MAX {
            pomos * minutes_per_pomo
        } else {
            u32::MAX as int
        },
{
    match pomos.checked_mul(minutes_per_pomo) {
        Some(product) => product,
        None => u32::MAX,
    }
}

} // verus!
