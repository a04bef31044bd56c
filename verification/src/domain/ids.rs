//! Strongly-typed identifiers for domain entities.
//!
//! Each identifier wraps an `i64` (the store's row id) so that ids of different
//! entities cannot be interchanged.

use vstd::prelude::*;

verus! {

/// Identifies a task.
#[derive(Clone, Copy, Debug, PartialEq, Eq, Hash, PartialOrd, Ord, Structural)]
pub struct TaskId(i64);

/// Identifies a Pomodoro session.
#[derive(Clone, Copy, Debug, PartialEq, Eq, Hash, PartialOrd, Ord, Structural)]
pub struct PomodoroSessionId(i64);

/// Identifies a bank ledger transaction.
#[derive(Clone, Copy, Debug, PartialEq, Eq, Hash, PartialOrd, Ord, Structural)]
pub struct BankTransactionId(i64);

/// Identifies a note.
#[derive(Clone, Copy, Debug, PartialEq, Eq, Hash, PartialOrd, Ord, Structural)]
pub struct NoteId(i64);

impl View for TaskId {
    type V = i64;

    closed spec fn view(&self) -> i64 {
        self.0
    }
}

impl View for PomodoroSessionId {
    type V = i64;

    closed spec fn view(&self) -> i64 {
        self.0
    }
}

impl View for BankTransactionId {
    type V = i64;

    closed spec fn view(&self) -> i64 {
        self.0
    }
}

impl View for NoteId {
    type V = i64;

    closed spec fn view(&self) -> i64 {
        self.0
    }
}

impl TaskId {
    /// Wraps a raw identifier value.
    pub fn new(value: i64) -> (r: Self)
        ensures
            r@ == value,
    {
        TaskId(value)
    }

    /// The underlying raw identifier value.
    pub fn value(self) -> (r: i64)
        ensures
            r == self@,
    {
        self.0
    }

    /// Two ids are equal exactly when their raw values are.
    pub broadcast proof fn lemma_view_injective(a: TaskId, b: TaskId)
        ensures
            #![trigger a@, b@]
            (a@ == b@) == (a == b),
    {
    }
}

impl PomodoroSessionId {
    /// Wraps a raw identifier value.
    pub fn new(value: i64) -> (r: Self)
        ensures
            r@ == value,
    {
        PomodoroSessionId(value)
    }

    /// The underlying raw identifier value.
    pub fn value(self) -> (r: i64)
        ensures
            r == self@,
    {
        self.0
    }

    /// Two ids are equal exactly when their raw values are.
    pub broadcast proof fn lemma_view_injective(a: PomodoroSessionId, b: PomodoroSessionId)
        ensures
            #![trigger a@, b@]
            (a@ == b@) == (a == b),
    {
    }
}

impl BankTransactionId {
    /// Wraps a raw identifier value.
    pub fn new(value: i64) -> (r: Self)
        ensures
            r@ == value,
    {
        BankTransactionId(value)
    }

    /// The underlying raw identifier value.
    pub fn value(self) -> (r: i64)
        ensures
            r == self@,
    {
        self.0
    }
}

impl NoteId {
    /// Wraps a raw identifier value.
    pub fn new(value: i64) -> (r: Self)
        ensures
            r@ == value,
    {
        NoteId(value)
    }

    /// The underlying raw identifier value.
    pub fn value(self) -> (r: i64)
        ensures
            r == self@,
    {
        self.0
    }

    /// Two ids are equal exactly when their raw values are.
    pub broadcast proof fn lemma_view_injective(a: NoteId, b: NoteId)
        ensures
            #![trigger a@, b@]
            (a@ == b@) == (a == b),
    {
    }
}

} // verus!
