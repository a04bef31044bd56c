//! Value conversions at the storage boundary: the text codes that enums are stored
//! as, timestamps as RFC 3339 text, and integer columns narrowed to the domain's
//! widths. A persistence adapter reads and writes columns through these.

use vstd::prelude::*;

use crate::domain::bank::BankTransactionType;
use crate::domain::repository::RepositoryError;
use crate::domain::session::{SessionStatus, TimerPhase};
use crate::domain::task::{Rating, TaskStatus};
use crate::text::{debug_quoted, rust_debug_str, same_text};
use crate::time::{chrono_accepts_timestamp, Timestamp, MAX_ABS_SECONDS, NANOS_PER_SECOND};

verus! {

// --- Enum codes ---

/// The stored code of a task status.
pub open spec fn task_status_code(status: TaskStatus) -> Seq<char> {
    match status {
        TaskStatus::Todo => "todo"@,
        TaskStatus::InProgress => "in_progress"@,
        TaskStatus::Paused => "paused"@,
        TaskStatus::Done => "done"@,
        TaskStatus::Cancelled => "cancelled"@,
    }
}

/// The stored code of a timer phase.
pub open spec fn phase_code(phase: TimerPhase) -> Seq<char> {
    match phase {
        TimerPhase::Focus => "focus"@,
        TimerPhase::ShortBreak => "short_break"@,
        TimerPhase::LongBreak => "long_break"@,
    }
}

/// The stored code of a session status.
pub open spec fn session_status_code(status: SessionStatus) -> Seq<char> {
    match status {
        SessionStatus::Running => "running"@,
        SessionStatus::Completed => "completed"@,
        SessionStatus::Abandoned => "abandoned"@,
    }
}

/// The stored code of a ledger entry's kind.
pub open spec fn bank_type_code(kind: BankTransactionType) -> Seq<char> {
    match kind {
        BankTransactionType::TaskReward => "task_reward"@,
        BankTransactionType::Spend => "spend"@,
    }
}

/// The message for a stored code that names no value of `kind`.
pub open spec fn unknown_message(kind: Seq<char>, value: Seq<char>) -> Seq<char> {
    "unknown "@ + kind + " value "@ + rust_debug_str(value)
}

/// The error for a stored code that names no value of `kind`.
pub fn unknown(kind: &str, value: &str) -> (r: RepositoryError)
    ensures
        r matches RepositoryError::Backend { message } && message@ == unknown_message(kind@, value@),
{
    let mut message = String::from_str("unknown ");
    message.append(kind);
    message.append(" value ");
    let quoted = debug_quoted(value);
    message.append(quoted.as_str());
    RepositoryError::Backend { message }
}

/// The code a task status is stored as.
pub fn task_status_to_str(status: TaskStatus) -> (r: &'static str)
    ensures
        r@ == task_status_code(status),
{
    match status {
        TaskStatus::Todo => "todo",
        TaskStatus::InProgress => "in_progress",
        TaskStatus::Paused => "paused",
        TaskStatus::Done => "done",
        TaskStatus::Cancelled => "cancelled",
    }
}

/// The task status a stored code names.
///
/// # Errors
/// A backend error for a code that names no status.
pub fn task_status_from_str(value: &str) -> (r: Result<TaskStatus, RepositoryError>)
    ensures
        match r {
            Ok(status) => task_status_code(status) == value@,
            Err(e) => (forall|s: TaskStatus| task_status_code(s) != value@) && (e matches RepositoryError::Backend {
                message,
            } && message@ == unknown_message("task status"@, value@)),
        },
        forall|x: TaskStatus| task_status_code(x) == value@ ==> r == Ok::<TaskStatus, RepositoryError>(x),
{
    proof {
        reveal_strlit("todo");
        reveal_strlit("in_progress");
        reveal_strlit("paused");
        reveal_strlit("done");
        reveal_strlit("cancelled");
    }
    let r = if same_text(value, "todo") {
        Ok(TaskStatus::Todo)
    } else if same_text(value, "in_progress") {
        Ok(TaskStatus::InProgress)
    } else if same_text(value, "paused") {
        Ok(TaskStatus::Paused)
    } else if same_text(value, "done") {
        Ok(TaskStatus::Done)
    } else if same_text(value, "cancelled") {
        Ok(TaskStatus::Cancelled)
    } else {
        Err(unknown("task status", value))
    };
    proof {
        assert forall|x: TaskStatus| task_status_code(x) == value@ implies r == Ok::<TaskStatus, RepositoryError>(x) by {
            if let Ok(y) = r {
                lemma_task_status_code_injective(x, y);
            }
        }
    }
    r
}


/// The code a timer phase is stored as.
pub fn phase_to_str(phase: TimerPhase) -> (r: &'static str)
    ensures
        r@ == phase_code(phase),
{
    match phase {
        TimerPhase::Focus => "focus",
        TimerPhase::ShortBreak => "short_break",
        TimerPhase::LongBreak => "long_break",
    }
}

/// The timer phase a stored code names.
///
/// # Errors
/// A backend error for a code that names no phase.
pub fn phase_from_str(value: &str) -> (r: Result<TimerPhase, RepositoryError>)
    ensures
        match r {
            Ok(phase) => phase_code(phase) == value@,
            Err(e) => (forall|p: TimerPhase| phase_code(p) != value@) && (e matches RepositoryError::Backend {
                message,
            } && message@ == unknown_message("timer phase"@, value@)),
        },
        forall|x: TimerPhase| phase_code(x) == value@ ==> r == Ok::<TimerPhase, RepositoryError>(x),
{
    proof {
        reveal_strlit("focus");
        reveal_strlit("short_break");
        reveal_strlit("long_break");
    }
    let r = if same_text(value, "focus") {
        Ok(TimerPhase::Focus)
    } else if same_text(value, "short_break") {
        Ok(TimerPhase::ShortBreak)
    } else if same_text(value, "long_break") {
        Ok(TimerPhase::LongBreak)
    } else {
        Err(unknown("timer phase", value))
    };
    proof {
        assert forall|x: TimerPhase| phase_code(x) == value@ implies r == Ok::<TimerPhase, RepositoryError>(x) by {
            if let Ok(y) = r {
                lemma_phase_code_injective(x, y);
            }
        }
    }
    r
}

/// The code a session status is stored as.
pub fn session_status_to_str(status: SessionStatus) -> (r: &'static str)
    ensures
        r@ == session_status_code(status),
{
    match status {
        SessionStatus::Running => "running",
        SessionStatus::Completed => "completed",
        SessionStatus::Abandoned => "abandoned",
    }
}

/// The session status a stored code names.
///
/// # Errors
/// A backend error for a code that names no status.
pub fn session_status_from_str(value: &str) -> (r: Result<SessionStatus, RepositoryError>)
    ensures
        match r {
            Ok(status) => session_status_code(status) == value@,
            Err(e) => (forall|s: SessionStatus| session_status_code(s) != value@) && (e matches RepositoryError::Backend {
                message,
            } && message@ == unknown_message("session status"@, value@)),
        },
        forall|x: SessionStatus| session_status_code(x) == value@ ==> r == Ok::<SessionStatus, RepositoryError>(x),
{
    proof {
        reveal_strlit("running");
        reveal_strlit("completed");
        reveal_strlit("abandoned");
    }
    let r = if same_text(value, "running") {
        Ok(SessionStatus::Running)
    } else if same_text(value, "completed") {
        Ok(SessionStatus::Completed)
    } else if same_text(value, "abandoned") {
        Ok(SessionStatus::Abandoned)
    } else {
        Err(unknown("session status", value))
    };
    proof {
        assert forall|x: SessionStatus| session_status_code(x) == value@ implies r == Ok::<SessionStatus, RepositoryError>(x) by {
            if let Ok(y) = r {
                lemma_session_status_code_injective(x, y);
            }
        }
    }
    r
}

/// The code a ledger entry's kind is stored as.
pub fn bank_type_to_str(kind: BankTransactionType) -> (r: &'static str)
    ensures
        r@ == bank_type_code(kind),
{
    match kind {
        BankTransactionType::TaskReward => "task_reward",
        BankTransactionType::Spend => "spend",
    }
}

/// The ledger entry kind a stored code names.
///
/// # Errors
/// A backend error for a code that names no kind.
pub fn bank_type_from_str(value: &str) -> (r: Result<BankTransactionType, RepositoryError>)
    ensures
        match r {
            Ok(kind) => bank_type_code(kind) == value@,
            Err(e) => (forall|k: BankTransactionType| bank_type_code(k) != value@) && (e matches RepositoryError::Backend {
                message,
            } && message@ == unknown_message("bank transaction type"@, value@)),
        },
        forall|x: BankTransactionType| bank_type_code(x) == value@ ==> r == Ok::<BankTransactionType, RepositoryError>(x),
{
    proof {
        reveal_strlit("task_reward");
        reveal_strlit("spend");
    }
    let r = if same_text(value, "task_reward") {
        Ok(BankTransactionType::TaskReward)
    } else if same_text(value, "spend") {
        Ok(BankTransactionType::Spend)
    } else {
        Err(unknown("bank transaction type", value))
    };
    proof {
        assert forall|x: BankTransactionType| bank_type_code(x) == value@ implies r == Ok::<BankTransactionType, RepositoryError>(x) by {
            if let Ok(y) = r {
                lemma_bank_type_code_injective(x, y);
            }
        }
    }
    r
}

/// The stored code of a rating.
pub open spec fn rating_code(rating: Rating) -> Seq<char> {
    match rating {
        Rating::Low => "low"@,
        Rating::Mid => "mid"@,
        Rating::High => "high"@,
    }
}

/// The code a rating is stored as.
pub fn rating_to_str(rating: Rating) -> (r: &'static str)
    ensures
        r@ == rating_code(rating),
{
    match rating {
        Rating::Low => "low",
        Rating::Mid => "mid",
        Rating::High => "high",
    }
}

/// The rating a stored code names.
///
/// # Errors
/// A backend error for a code that names no rating.
pub fn rating_from_str(value: &str) -> (r: Result<Rating, RepositoryError>)
    ensures
        match r {
            Ok(rating) => rating_code(rating) == value@,
            Err(e) => (forall|x: Rating| rating_code(x) != value@) && (e matches RepositoryError::Backend {
                message,
            } && message@ == unknown_message("rating"@, value@)),
        },
        forall|x: Rating| rating_code(x) == value@ ==> r == Ok::<Rating, RepositoryError>(x),
{
    proof {
        reveal_strlit("low");
        reveal_strlit("mid");
        reveal_strlit("high");
    }
    let r = if same_text(value, "low") {
        Ok(Rating::Low)
    } else if same_text(value, "mid") {
        Ok(Rating::Mid)
    } else if same_text(value, "high") {
        Ok(Rating::High)
    } else {
        Err(unknown("rating", value))
    };
    proof {
        assert forall|x: Rating| rating_code(x) == value@ implies r == Ok::<Rating, RepositoryError>(x) by {
            if let Ok(y) = r {
                lemma_rating_code_injective(x, y);
            }
        }
    }
    r
}

/// Distinct ratings have distinct codes.
pub proof fn lemma_rating_code_injective(a: Rating, b: Rating)
    ensures
        rating_code(a) == rating_code(b) ==> a == b,
{
    reveal_strlit("low");
    reveal_strlit("mid");
    reveal_strlit("high");
    if rating_code(a) == rating_code(b) {
        assert(rating_code(a).len() == rating_code(b).len());
        assert(rating_code(a)[0] == rating_code(b)[0]);
    }
}

/// Decoding a stored task status code gives back the status.
pub proof fn lemma_task_status_code_injective(a: TaskStatus, b: TaskStatus)
    ensures
        task_status_code(a) == task_status_code(b) ==> a == b,
{
    reveal_strlit("todo");
    reveal_strlit("in_progress");
    reveal_strlit("paused");
    reveal_strlit("done");
    reveal_strlit("cancelled");
    if task_status_code(a) == task_status_code(b) {
        assert(task_status_code(a).len() == task_status_code(b).len());
        assert(task_status_code(a)[0] == task_status_code(b)[0]);
    }
}

/// Distinct phases have distinct codes.
pub proof fn lemma_phase_code_injective(a: TimerPhase, b: TimerPhase)
    ensures
        phase_code(a) == phase_code(b) ==> a == b,
{
    reveal_strlit("focus");
    reveal_strlit("short_break");
    reveal_strlit("long_break");
    if phase_code(a) == phase_code(b) {
        assert(phase_code(a).len() == phase_code(b).len());
        assert(phase_code(a)[0] == phase_code(b)[0]);
    }
}

/// Distinct session statuses have distinct codes.
pub proof fn lemma_session_status_code_injective(a: SessionStatus, b: SessionStatus)
    ensures
        session_status_code(a) == session_status_code(b) ==> a == b,
{
    reveal_strlit("running");
    reveal_strlit("completed");
    reveal_strlit("abandoned");
    if session_status_code(a) == session_status_code(b) {
        assert(session_status_code(a).len() == session_status_code(b).len());
        assert(session_status_code(a)[0] == session_status_code(b)[0]);
    }
}

/// Distinct ledger entry kinds have distinct codes.
pub proof fn lemma_bank_type_code_injective(a: BankTransactionType, b: BankTransactionType)
    ensures
        bank_type_code(a) == bank_type_code(b) ==> a == b,
{
    reveal_strlit("task_reward");
    reveal_strlit("spend");
    if bank_type_code(a) == bank_type_code(b) {
        assert(bank_type_code(a).len() == bank_type_code(b).len());
        assert(bank_type_code(a)[0] == bank_type_code(b)[0]);
    }
}

// --- Integer columns ---

/// Narrows a stored integer to `u32`.
///
/// # Errors
/// A backend error (with the conversion error's message) when it does not fit.
pub fn to_u32(value: i64) -> (r: Result<u32, RepositoryError>)
    ensures
        r matches Ok(v) ==> v == value,
        r is Ok <==> 0 <= value <= u32::MAX,
        r is Err ==> r->Err_0 is Backend,
{
    match u32::try_from(value) {
        Ok(v) => Ok(v),
        Err(error) => Err(RepositoryError::Backend { message: error.to_string() }),
    }
}

/// Narrows a stored integer to `i32`.
///
/// # Errors
/// A backend error (with the conversion error's message) when it does not fit.
pub fn to_i32(value: i64) -> (r: Result<i32, RepositoryError>)
    ensures
        r matches Ok(v) ==> v == value,
        r is Ok <==> i32::MIN <= value <= i32::MAX,
        r is Err ==> r->Err_0 is Backend,
{
    match i32::try_from(value) {
        Ok(v) => Ok(v),
        Err(error) => Err(RepositoryError::Backend { message: error.to_string() }),
    }
}

// --- Timestamps ---

/// The RFC 3339 text chrono's `DateTime::<Utc>::to_rfc3339` writes for the instant
/// `secs` seconds and `nsecs` nanoseconds after the Unix epoch.
pub uninterp spec fn chrono_rfc3339_text(secs: i64, nsecs: u32) -> Seq<char>;

/// `DateTime::<Utc>::from_timestamp(secs, nsecs)` rendered with `to_rfc3339`. The
/// contract claims that a text comes back exactly where chrono accepts the parts (as it
/// does every instant within [`MAX_ABS_SECONDS`] of the epoch with a nanosecond part
/// below one second), and that it is the named rendering.
#[verifier::external_body]
fn chrono_to_rfc3339(secs: i64, nsecs: u32) -> (r: Option<String>)
    ensures
        r is Some == chrono_accepts_timestamp(secs, nsecs),
        -MAX_ABS_SECONDS <= secs <= MAX_ABS_SECONDS && nsecs < NANOS_PER_SECOND ==> r is Some,
        r matches Some(text) ==> text@ == chrono_rfc3339_text(secs, nsecs),
{
    match chrono::DateTime::from_timestamp(secs, nsecs) {
        Some(instant) => Some(instant.to_rfc3339()),
        None => None,
    }
}

/// The instant chrono's `DateTime::parse_from_rfc3339` reads from `text`, as Unix
/// seconds and sub-second nanoseconds, or `None` where it reports an error.
pub uninterp spec fn chrono_rfc3339_parts(text: Seq<char>) -> Option<(i64, u32)>;

/// `DateTime::parse_from_rfc3339(text)`, taken apart into its Unix seconds and
/// sub-second nanoseconds. The contract claims that the parse succeeds exactly where
/// the named parts exist and gives those parts; the error's message is not described.
#[verifier::external_body]
fn chrono_parse_rfc3339(text: &str) -> (r: Result<(i64, u32), String>)
    ensures
        r is Ok == chrono_rfc3339_parts(text@) is Some,
        r matches Ok(parts) ==> chrono_rfc3339_parts(text@) == Some(parts),
{
    match chrono::DateTime::parse_from_rfc3339(text) {
        Ok(instant) => Ok((instant.timestamp(), instant.timestamp_subsec_nanos())),
        Err(error) => Err(error.to_string()),
    }
}

/// The RFC 3339 text an instant is stored as.
pub fn datetime_to_str(value: Timestamp) -> (r: String)
    ensures
        r@ == chrono_rfc3339_text(value.spec_secs() as i64, value.spec_nanos() as u32),
{
    match chrono_to_rfc3339(value.timestamp(), value.subsec_nanos()) {
        Some(text) => text,
        None => String::new(),
    }
}

/// The message for a stored timestamp that does not read as one.
pub open spec fn invalid_timestamp_message(value: Seq<char>, reason: Seq<char>) -> Seq<char> {
    "invalid timestamp "@ + rust_debug_str(value) + ": "@ + reason
}

/// The instant a stored RFC 3339 text names.
///
/// # Errors
/// A backend error where chrono does not read the text, or the instant it reads lies
/// beyond [`MAX_ABS_SECONDS`] of the epoch (or on a leap second).
pub fn datetime_from_str(value: &str) -> (r: Result<Timestamp, RepositoryError>)
    ensures
        r is Ok <==> (chrono_rfc3339_parts(value@) matches Some(p) && -MAX_ABS_SECONDS <= p.0
            <= MAX_ABS_SECONDS && p.1 < NANOS_PER_SECOND),
        r matches Ok(t) ==> chrono_rfc3339_parts(value@) == Some(
            (t.spec_secs() as i64, t.spec_nanos() as u32),
        ),
        r matches Err(e) ==> e is Backend,
{
    match chrono_parse_rfc3339(value) {
        Ok((secs, nanos)) => match Timestamp::from_timestamp(secs, nanos) {
            Some(t) => Ok(t),
            None => {
                let mut message = String::from_str("invalid timestamp ");
                let quoted = debug_quoted(value);
                message.append(quoted.as_str());
                message.append(": out of range");
                Err(RepositoryError::Backend { message })
            },
        },
        Err(reason) => {
            let mut message = String::from_str("invalid timestamp ");
            let quoted = debug_quoted(value);
            message.append(quoted.as_str());
            message.append(": ");
            message.append(reason.as_str());
            Err(RepositoryError::Backend { message })
        },
    }
}
} // verus!
