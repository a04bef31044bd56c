//! The in-memory store: tables of tasks, sessions, ledger entries and notes.
//!
//! Rows get consecutive ids from 1 in insertion order, as an integer primary key
//! without deletions does, and every reference to another row points at an existing
//! one, as a foreign key does. A persistence adapter loads a store from its rows with
//! [`MemoryStore::from_rows`] and writes back what the accessors return.

use vstd::prelude::*;

use crate::domain::bank::{
    ledger_sum, ledger_views, BankTransaction, BankTransactionType, BankTransactionView,
};
use crate::domain::ids::{BankTransactionId, NoteId, PomodoroSessionId, TaskId};
use crate::domain::note::{Note, NoteView};
use crate::domain::repository::RepositoryError;
use crate::domain::session::{PomodoroSession, SessionStatus, SessionView, TimerPhase};
use crate::domain::task::{Task, TaskStatus, TaskView};
use crate::domain::reward::{completed_focus_count, is_completed_focus, session_views};
use crate::text::{contains_ignore_case, seq_less, strings_view};
use crate::time::Timestamp;

verus! {

/// The most rows a table of the store holds.
pub const MAX_ROWS: usize = 0xFFFF_FFFF;

/// The abstract contents of a [`MemoryStore`].
pub ghost struct StoreView {
    pub tasks: Seq<TaskView>,
    pub sessions: Seq<SessionView>,
    pub transactions: Seq<BankTransactionView>,
    pub notes: Seq<NoteView>,
    pub tags: Seq<Seq<Seq<char>>>,
    pub links: Seq<Seq<NoteId>>,
}

/// Whether `id` names a row of a table with `len` rows.
pub open spec fn row_exists(id: i64, len: int) -> bool {
    1 <= id <= len
}

/// The well-formedness of a store's contents.
pub open spec fn store_view_wf(v: StoreView) -> bool {
    &&& v.tasks.len() <= MAX_ROWS
    &&& v.sessions.len() <= MAX_ROWS
    &&& v.transactions.len() <= MAX_ROWS
    &&& v.notes.len() <= MAX_ROWS
    &&& v.tags.len() == v.notes.len()
    &&& v.links.len() == v.notes.len()
    &&& forall|i: int| 0 <= i < v.tasks.len() ==> (#[trigger] v.tasks[i]).id@ == i + 1
    &&& forall|i: int|
        0 <= i < v.sessions.len() ==> (#[trigger] v.sessions[i]).id@ == i + 1 && row_exists(
            v.sessions[i].task_id@,
            v.tasks.len() as int,
        )
    &&& forall|i: int|
        0 <= i < v.transactions.len() ==> (#[trigger] v.transactions[i]).id@ == i + 1 && (
        v.transactions[i].task_id matches Some(t) ==> row_exists(t@, v.tasks.len() as int))
    &&& forall|i: int|
        0 <= i < v.notes.len() ==> (#[trigger] v.notes[i]).id@ == i + 1 && (
        v.notes[i].task_id matches Some(t) ==> row_exists(t@, v.tasks.len() as int))
    &&& forall|i: int| 0 <= i < v.notes.len() ==> tags_sorted(#[trigger] v.tags[i])
    &&& forall|i: int| 0 <= i < v.notes.len() ==> links_valid(#[trigger] v.links[i], v.notes.len() as int)
}

/// Tags are kept strictly increasing by code point (so also free of duplicates).
pub open spec fn tags_sorted(tags: Seq<Seq<char>>) -> bool {
    forall|a: int, b: int|
        0 <= a < b < tags.len() ==> crate::text::seq_less(#[trigger] tags[a], #[trigger] tags[b])
}

/// Outgoing links name existing notes, each at most once.
pub open spec fn links_valid(links: Seq<NoteId>, note_count: int) -> bool {
    &&& forall|k: int| 0 <= k < links.len() ==> row_exists((#[trigger] links[k])@, note_count)
    &&& forall|a: int, b: int|
        0 <= a < b < links.len() ==> (#[trigger] links[a])@ != (#[trigger] links[b])@
}

/// A note's row: the note, its tags and its outgoing links.
pub struct NoteRow {
    pub note: Note,
    pub tags: Vec<String>,
    pub links: Vec<NoteId>,
}

/// The in-memory store.
pub struct MemoryStore {
    tasks: Vec<Task>,
    sessions: Vec<PomodoroSession>,
    transactions: Vec<BankTransaction>,
    notes: Vec<NoteRow>,
}

impl View for MemoryStore {
    type V = StoreView;

    closed spec fn view(&self) -> StoreView {
        StoreView {
            tasks: self.tasks@.map_values(|t: Task| t@),
            sessions: self.sessions@.map_values(|s: PomodoroSession| s@),
            transactions: self.transactions@.map_values(|t: BankTransaction| t@),
            notes: self.notes@.map_values(|r: NoteRow| r.note@),
            tags: self.notes@.map_values(|r: NoteRow| strings_view(r.tags@)),
            links: self.notes@.map_values(|r: NoteRow| r.links@),
        }
    }
}

/// The contents of a store made of the given rows.
pub open spec fn rows_view(
    tasks: Seq<Task>,
    sessions: Seq<PomodoroSession>,
    transactions: Seq<BankTransaction>,
    notes: Seq<NoteRow>,
) -> StoreView {
    StoreView {
        tasks: tasks.map_values(|t: Task| t@),
        sessions: sessions.map_values(|s: PomodoroSession| s@),
        transactions: transactions.map_values(|t: BankTransaction| t@),
        notes: notes.map_values(|r: NoteRow| r.note@),
        tags: notes.map_values(|r: NoteRow| strings_view(r.tags@)),
        links: notes.map_values(|r: NoteRow| r.links@),
    }
}

/// Whether `id`, as a raw value, names a row of a table with `len` rows.
fn raw_row_exists(id: i64, len: usize) -> (r: bool)
    ensures
        r == row_exists(id, len as int),
{
    1 <= id && (id as u64) <= (len as u64)
}

/// Whether the tags are strictly increasing by code point.
fn tags_are_sorted(tags: &Vec<String>) -> (r: bool)
    ensures
        r == tags_sorted(strings_view(tags@)),
{
    let ghost t = strings_view(tags@);
    let mut k: usize = 1;
    while k < tags.len()
        invariant
            1 <= k,
            t == strings_view(tags@),
            forall|a: int, b: int| 0 <= a < b < k && b < t.len() ==> seq_less(#[trigger] t[a], #[trigger] t[b]),
        decreases tags.len() - k,
    {
        let prev = crate::text::chars_of(tags[k - 1].as_str());
        let next = crate::text::chars_of(tags[k].as_str());
        if !crate::text::chars_less(prev.as_slice(), next.as_slice()) {
            proof {
                assert(t[k - 1] == tags@[k - 1]@);
                assert(t[k as int] == tags@[k as int]@);
            }
            return false;
        }
        proof {
            assert(t[k - 1] == tags@[k - 1]@);
            assert(t[k as int] == tags@[k as int]@);
            assert forall|a: int, b: int| 0 <= a < b < k + 1 && b < t.len() implies seq_less(
                #[trigger] t[a],
                #[trigger] t[b],
            ) by {
                if b == k && a < k - 1 {
                    crate::text::lemma_seq_less_transitive(t[a], t[k - 1], t[b]);
                }
            }
        }
        k = k + 1;
    }
    true
}

/// Whether the links name existing notes, each at most once.
fn links_are_valid(links: &Vec<NoteId>, note_count: usize) -> (r: bool)
    ensures
        r == links_valid(links@, note_count as int),
{
    let mut k: usize = 0;
    while k < links.len()
        invariant
            k <= links@.len(),
            forall|m: int| 0 <= m < k ==> row_exists((#[trigger] links@[m])@, note_count as int),
            forall|a: int, b: int| 0 <= a < b < k ==> (#[trigger] links@[a])@ != (#[trigger] links@[b])@,
        decreases links.len() - k,
    {
        if !raw_row_exists(links[k].value(), note_count) {
            return false;
        }
        let mut j: usize = 0;
        while j < k
            invariant
                j <= k < links@.len(),
                forall|a: int| 0 <= a < j ==> (#[trigger] links@[a])@ != links@[k as int]@,
            decreases k - j,
        {
            if links[j].value() == links[k].value() {
                return false;
            }
            j = j + 1;
        }
        k = k + 1;
    }
    true
}

impl MemoryStore {
    /// The store's well-formedness.
    pub open spec fn wf(&self) -> bool {
        store_view_wf(self@)
    }

    /// An empty store.
    pub fn new() -> (r: Self)
        ensures
            r.wf(),
            r@.tasks.len() == 0,
            r@.sessions.len() == 0,
            r@.transactions.len() == 0,
            r@.notes.len() == 0,
    {
        let r = MemoryStore {
            tasks: Vec::new(),
            sessions: Vec::new(),
            transactions: Vec::new(),
            notes: Vec::new(),
        };
        proof {
            assert(r@.tags =~= Seq::<Seq<Seq<char>>>::empty());
            assert(r@.links =~= Seq::<Seq<NoteId>>::empty());
        }
        r
    }

    /// The number of tasks stored.
    pub fn task_count(&self) -> (r: usize)
        ensures
            r == self@.tasks.len(),
    {
        self.tasks.len()
    }

    /// The number of sessions stored.
    pub fn session_count(&self) -> (r: usize)
        ensures
            r == self@.sessions.len(),
    {
        self.sessions.len()
    }

    /// The number of ledger entries stored.
    pub fn transaction_count(&self) -> (r: usize)
        ensures
            r == self@.transactions.len(),
    {
        self.transactions.len()
    }

    /// The number of notes stored.
    pub fn note_count(&self) -> (r: usize)
        ensures
            r == self@.notes.len(),
    {
        self.notes.len()
    }

    /// A store made of persisted rows, if they form a well-formed store: ids run
    /// from 1 in row order, references name existing rows, each note's tags are strictly
    /// increasing and its links name existing notes once each.
    pub fn from_rows(
        tasks: Vec<Task>,
        sessions: Vec<PomodoroSession>,
        transactions: Vec<BankTransaction>,
        notes: Vec<NoteRow>,
    ) -> (r: Option<Self>)
        ensures
            r is Some <==> store_view_wf(rows_view(tasks@, sessions@, transactions@, notes@)),
            r matches Some(st) ==> st@ == rows_view(tasks@, sessions@, transactions@, notes@),
    {
        let ghost v = rows_view(tasks@, sessions@, transactions@, notes@);
        if tasks.len() > MAX_ROWS || sessions.len() > MAX_ROWS || transactions.len() > MAX_ROWS
            || notes.len() > MAX_ROWS {
            return None;
        }
        let mut i: usize = 0;
        while i < tasks.len()
            invariant
                i <= tasks@.len() <= MAX_ROWS,
                v == rows_view(tasks@, sessions@, transactions@, notes@),
                sessions@.len() <= MAX_ROWS && transactions@.len() <= MAX_ROWS && notes@.len() <= MAX_ROWS,
                v.tasks == tasks@.map_values(|t: Task| t@),
                forall|k: int| 0 <= k < i ==> (#[trigger] v.tasks[k]).id@ == k + 1,
            decreases tasks.len() - i,
        {
            proof {
                assert(v.tasks[i as int] == tasks@[i as int]@);
            }
            if tasks[i].id().value() != (i + 1) as i64 {
                return None;
            }
            i = i + 1;
        }
        let mut i: usize = 0;
        while i < sessions.len()
            invariant
                i <= sessions@.len() <= MAX_ROWS,
                v == rows_view(tasks@, sessions@, transactions@, notes@),
                sessions@.len() <= MAX_ROWS && transactions@.len() <= MAX_ROWS && notes@.len() <= MAX_ROWS,
                v.sessions == sessions@.map_values(|s: PomodoroSession| s@),
                v.tasks.len() == tasks@.len(),
                forall|k: int|
                    0 <= k < i ==> (#[trigger] v.sessions[k]).id@ == k + 1 && row_exists(
                        v.sessions[k].task_id@,
                        v.tasks.len() as int,
                    ),
            decreases sessions.len() - i,
        {
            let s = sessions[i];
            proof {
                assert(v.sessions[i as int] == sessions@[i as int]@);
            }
            if s.id().value() != (i + 1) as i64 || !raw_row_exists(s.task_id().value(), tasks.len()) {
                return None;
            }
            i = i + 1;
        }
        let mut i: usize = 0;
        while i < transactions.len()
            invariant
                i <= transactions@.len() <= MAX_ROWS,
                v == rows_view(tasks@, sessions@, transactions@, notes@),
                sessions@.len() <= MAX_ROWS && transactions@.len() <= MAX_ROWS && notes@.len() <= MAX_ROWS,
                v.transactions == transactions@.map_values(|t: BankTransaction| t@),
                v.tasks.len() == tasks@.len(),
                forall|k: int|
                    0 <= k < i ==> (#[trigger] v.transactions[k]).id@ == k + 1 && (
                    v.transactions[k].task_id matches Some(t) ==> row_exists(t@, v.tasks.len() as int)),
            decreases transactions.len() - i,
        {
            proof {
                assert(v.transactions[i as int] == transactions@[i as int]@);
            }
            if transactions[i].id().value() != (i + 1) as i64 {
                return None;
            }
            if let Some(t) = transactions[i].task_id() {
                if !raw_row_exists(t.value(), tasks.len()) {
                    return None;
                }
            }
            i = i + 1;
        }
        let mut i: usize = 0;
        while i < notes.len()
            invariant
                i <= notes@.len() <= MAX_ROWS,
                v == rows_view(tasks@, sessions@, transactions@, notes@),
                sessions@.len() <= MAX_ROWS && transactions@.len() <= MAX_ROWS && notes@.len() <= MAX_ROWS,
                v.notes == notes@.map_values(|r: NoteRow| r.note@),
                v.tags == notes@.map_values(|r: NoteRow| strings_view(r.tags@)),
                v.links == notes@.map_values(|r: NoteRow| r.links@),
                v.tasks.len() == tasks@.len(),
                forall|k: int|
                    0 <= k < i ==> (#[trigger] v.notes[k]).id@ == k + 1 && (
                    v.notes[k].task_id matches Some(t) ==> row_exists(t@, v.tasks.len() as int)),
                forall|k: int| 0 <= k < i ==> tags_sorted(#[trigger] v.tags[k]),
                forall|k: int| 0 <= k < i ==> links_valid(#[trigger] v.links[k], v.notes.len() as int),
            decreases notes.len() - i,
        {
            let row = &notes[i];
            proof {
                assert(v.notes[i as int] == row.note@);
                assert(v.tags[i as int] == strings_view(row.tags@));
                assert(v.links[i as int] == row.links@);
            }
            if row.note.id().value() != (i + 1) as i64 {
                return None;
            }
            if let Some(t) = row.note.task_id() {
                if !raw_row_exists(t.value(), tasks.len()) {
                    return None;
                }
            }
            if !tags_are_sorted(&row.tags) || !links_are_valid(&row.links, notes.len()) {
                return None;
            }
            i = i + 1;
        }
        let st = MemoryStore { tasks, sessions, transactions, notes };
        proof {
            assert(st@ == v);
        }
        Some(st)
    }

    /// All sessions, ordered by id.
    pub fn list_sessions(&self) -> (r: Vec<PomodoroSession>)
        ensures
            session_views(r@) == self@.sessions,
    {
        let mut out: Vec<PomodoroSession> = Vec::new();
        let mut i: usize = 0;
        while i < self.sessions.len()
            invariant
                i <= self.sessions@.len(),
                session_views(out@) == self@.sessions.take(i as int),
            decreases self.sessions.len() - i,
        {
            let ghost prev = out@;
            out.push(self.sessions[i]);
            proof {
                assert(out@ =~= prev.push(self.sessions@[i as int]));
                assert(session_views(out@) =~= session_views(prev).push(self.sessions@[i as int]@));
                assert(self@.sessions.take(i + 1) =~= self@.sessions.take(i as int).push(
                    self@.sessions[i as int],
                ));
            }
            i = i + 1;
        }
        proof {
            assert(self@.sessions.take(i as int) =~= self@.sessions);
        }
        out
    }

    /// A note's outgoing links, in the order they were stored; empty for a note that
    /// does not exist.
    pub fn note_links(&self, note_id: NoteId) -> (r: Vec<NoteId>)
        requires
            self.wf(),
        ensures
            row_exists(note_id@, self@.notes.len() as int) ==> r@ == self@.links[note_id@ - 1],
            !row_exists(note_id@, self@.notes.len() as int) ==> r@.len() == 0,
    {
        if !raw_row_exists(note_id.value(), self.notes.len()) {
            return Vec::new();
        }
        let index = (note_id.value() - 1) as usize;
        let links = &self.notes[index].links;
        let mut out: Vec<NoteId> = Vec::new();
        let mut i: usize = 0;
        while i < links.len()
            invariant
                i <= links@.len(),
                out@ == links@.take(i as int),
            decreases links.len() - i,
        {
            out.push(links[i]);
            i = i + 1;
            proof {
                assert(out@ =~= links@.take(i as int));
            }
        }
        proof {
            assert(links@.take(i as int) =~= links@);
        }
        out
    }

    // --- Tasks ---

    /// Inserts a new `Todo` task and returns it with its assigned id (one past the
    /// last).
    ///
    /// # Errors
    /// Returns a backend error when the task table is full.
    pub fn create_task(&mut self, title: &str, estimated_pomos: u32, created_at: Timestamp) -> (r:
        Result<Task, RepositoryError>)
        requires
            old(self).wf(),
        ensures
            final(self).wf(),
            r is Ok <==> old(self)@.tasks.len() < MAX_ROWS,
            r matches Ok(t) ==> {
                &&& t@ == (TaskView {
                    id: t@.id,
                    title: title@,
                    description: Seq::empty(),
                    status: TaskStatus::Todo,
                    estimated_pomos,
                    effort: None,
                    effect: None,
                    start_date: None,
                    due_date: None,
                    linked_from: None,
                    created_at,
                    completed_at: None,
                })
                &&& t@.id@ == old(self)@.tasks.len() + 1
                &&& final(self)@ == (StoreView { tasks: old(self)@.tasks.push(t@), ..old(self)@ })
            },
            r is Err ==> final(self)@ == old(self)@,
    {
        if self.tasks.len() >= MAX_ROWS {
            return Err(RepositoryError::Backend { message: String::from_str("task table is full") });
        }
        let id = TaskId::new((self.tasks.len() + 1) as i64);
        let task = Task::new(id, title.to_owned(), estimated_pomos, created_at);
        let copy = task.clone();
        self.tasks.push(copy);
        proof {
            assert(self@.tasks =~= old(self)@.tasks.push(task@));
            assert(self@.sessions =~= old(self)@.sessions);
            assert(self@.transactions =~= old(self)@.transactions);
            assert(self@.notes =~= old(self)@.notes);
            assert(self@.tags =~= old(self)@.tags);
            assert(self@.links =~= old(self)@.links);
        }
        Ok(task)
    }

    /// Fetches a task by id, or `None` if it does not exist.
    pub fn get_task(&self, id: TaskId) -> (r: Option<Task>)
        requires
            self.wf(),
        ensures
            r is Some <==> row_exists(id@, self@.tasks.len() as int),
            r matches Some(t) ==> t@ == self@.tasks[id@ - 1],
    {
        let raw = id.value();
        if raw < 1 || raw > self.tasks.len() as i64 {
            return None;
        }
        let index = (raw - 1) as usize;
        Some(self.tasks[index].clone())
    }

    /// Lists all tasks, ordered by id.
    pub fn list_tasks(&self) -> (r: Vec<Task>)
        ensures
            r@.map_values(|t: Task| t@) == self@.tasks,
    {
        let mut out: Vec<Task> = Vec::new();
        let mut i: usize = 0;
        while i < self.tasks.len()
            invariant
                i <= self.tasks@.len(),
                out@.len() == i,
                forall|k: int| 0 <= k < i ==> (#[trigger] out@[k])@ == self.tasks@[k]@,
            decreases self.tasks.len() - i,
        {
            let c = self.tasks[i].clone();
            out.push(c);
            i = i + 1;
        }
        proof {
            assert(out@.map_values(|t: Task| t@) =~= self@.tasks);
        }
        out
    }

    /// Returns the first task (by id) that is `InProgress`, if any.
    pub fn find_active_task(&self) -> (r: Option<Task>)
        ensures
            r is None <==> forall|i: int|
                0 <= i < self@.tasks.len() ==> (#[trigger] self@.tasks[i]).status
                    != TaskStatus::InProgress,
            r matches Some(t) ==> exists|i: int|
                0 <= i < self@.tasks.len() && t@ == #[trigger] self@.tasks[i] && t@.status
                    == TaskStatus::InProgress && forall|j: int|
                    0 <= j < i ==> (#[trigger] self@.tasks[j]).status != TaskStatus::InProgress,
    {
        let mut i: usize = 0;
        while i < self.tasks.len()
            invariant
                i <= self.tasks@.len(),
                forall|j: int|
                    0 <= j < i ==> (#[trigger] self@.tasks[j]).status != TaskStatus::InProgress,
            decreases self.tasks.len() - i,
        {
            if self.tasks[i].status() == TaskStatus::InProgress {
                let t = self.tasks[i].clone();
                proof {
                    assert(t@ == self@.tasks[i as int]);
                }
                return Some(t);
            }
            i = i + 1;
        }
        None
    }

    /// Persists changes to an existing task (found by its id).
    ///
    /// # Errors
    /// Returns [`RepositoryError::NotFound`] if no task has the task's id.
    pub fn update_task(&mut self, task: &Task) -> (r: Result<(), RepositoryError>)
        requires
            old(self).wf(),
        ensures
            final(self).wf(),
            r is Ok <==> row_exists(task@.id@, old(self)@.tasks.len() as int),
            r is Ok ==> final(self)@ == (StoreView {
                tasks: old(self)@.tasks.update(task@.id@ - 1, task@),
                ..old(self)@
            }),
            r matches Err(e) ==> e == RepositoryError::NotFound && final(self)@ == old(self)@,
    {
        let raw = task.id().value();
        if raw < 1 || raw > self.tasks.len() as i64 {
            return Err(RepositoryError::NotFound);
        }
        let index = (raw - 1) as usize;
        self.tasks.set(index, task.clone());
        proof {
            assert(self@.tasks =~= old(self)@.tasks.update(task@.id@ - 1, task@));
            assert(self@.sessions =~= old(self)@.sessions);
            assert(self@.transactions =~= old(self)@.transactions);
            assert(self@.notes =~= old(self)@.notes);
            assert(self@.tags =~= old(self)@.tags);
            assert(self@.links =~= old(self)@.links);
        }
        Ok(())
    }

    // --- Sessions ---

    /// Inserts a new `Running` session for an existing task and returns it with its
    /// assigned id.
    ///
    /// # Errors
    /// Returns [`RepositoryError::NotFound`] if the task does not exist, or a backend
    /// error when the session table is full.
    pub fn create_session(
        &mut self,
        task_id: TaskId,
        phase: TimerPhase,
        configured_duration_seconds: u32,
        started_at: Timestamp,
    ) -> (r: Result<PomodoroSession, RepositoryError>)
        requires
            old(self).wf(),
        ensures
            final(self).wf(),
            r is Ok <==> row_exists(task_id@, old(self)@.tasks.len() as int)
                && old(self)@.sessions.len() < MAX_ROWS,
            r matches Ok(s) ==> {
                &&& s@ == (SessionView {
                    id: s@.id,
                    task_id,
                    phase,
                    status: SessionStatus::Running,
                    configured_duration_seconds,
                    started_at,
                    finished_at: None,
                })
                &&& s@.id@ == old(self)@.sessions.len() + 1
                &&& final(self)@ == (StoreView {
                    sessions: old(self)@.sessions.push(s@),
                    ..old(self)@
                })
            },
            r is Err ==> final(self)@ == old(self)@,
            r matches Err(e) ==> (e == RepositoryError::NotFound <==> !row_exists(
                task_id@,
                old(self)@.tasks.len() as int,
            )),
    {
        let raw = task_id.value();
        if raw < 1 || raw > self.tasks.len() as i64 {
            return Err(RepositoryError::NotFound);
        }
        if self.sessions.len() >= MAX_ROWS {
            return Err(
                RepositoryError::Backend { message: String::from_str("session table is full") },
            );
        }
        let id = PomodoroSessionId::new((self.sessions.len() + 1) as i64);
        let session = PomodoroSession::new(id, task_id, phase, configured_duration_seconds, started_at);
        self.sessions.push(session);
        proof {
            assert(self@.sessions =~= old(self)@.sessions.push(session@));
            assert(self@.tasks =~= old(self)@.tasks);
            assert(self@.transactions =~= old(self)@.transactions);
            assert(self@.notes =~= old(self)@.notes);
            assert(self@.tags =~= old(self)@.tags);
            assert(self@.links =~= old(self)@.links);
        }
        Ok(session)
    }

    /// Persists changes to an existing session (found by its id).
    ///
    /// # Errors
    /// Returns [`RepositoryError::NotFound`] if no session has the session's id or its
    /// task does not exist.
    pub fn update_session(&mut self, session: &PomodoroSession) -> (r: Result<(), RepositoryError>)
        requires
            old(self).wf(),
        ensures
            final(self).wf(),
            r is Ok <==> row_exists(session@.id@, old(self)@.sessions.len() as int) && row_exists(
                session@.task_id@,
                old(self)@.tasks.len() as int,
            ),
            r is Ok ==> final(self)@ == (StoreView {
                sessions: old(self)@.sessions.update(session@.id@ - 1, session@),
                ..old(self)@
            }),
            r matches Err(e) ==> e == RepositoryError::NotFound && final(self)@ == old(self)@,
    {
        let raw = session.id().value();
        if raw < 1 || raw > self.sessions.len() as i64 {
            return Err(RepositoryError::NotFound);
        }
        let task_raw = session.task_id().value();
        if task_raw < 1 || task_raw > self.tasks.len() as i64 {
            return Err(RepositoryError::NotFound);
        }
        let index = (raw - 1) as usize;
        self.sessions.set(index, *session);
        proof {
            assert(self@.sessions =~= old(self)@.sessions.update(session@.id@ - 1, session@));
            assert(self@.tasks =~= old(self)@.tasks);
            assert(self@.transactions =~= old(self)@.transactions);
            assert(self@.notes =~= old(self)@.notes);
            assert(self@.tags =~= old(self)@.tags);
            assert(self@.links =~= old(self)@.links);
        }
        Ok(())
    }

    /// The first session (by id) of the task that is still running, if any.
    pub fn running_session_of(&self, task_id: TaskId) -> (r: Option<PomodoroSession>)
        ensures
            r is None <==> forall|i: int|
                0 <= i < self@.sessions.len() ==> !is_running_of(#[trigger] self@.sessions[i], task_id),
            r matches Some(s) ==> exists|i: int|
                0 <= i < self@.sessions.len() && s@ == #[trigger] self@.sessions[i]
                    && is_running_of(s@, task_id) && forall|j: int|
                    0 <= j < i ==> !is_running_of(#[trigger] self@.sessions[j], task_id),
    {
        let mut i: usize = 0;
        while i < self.sessions.len()
            invariant
                i <= self.sessions@.len(),
                forall|j: int| 0 <= j < i ==> !is_running_of(#[trigger] self@.sessions[j], task_id),
            decreases self.sessions.len() - i,
        {
            let s = self.sessions[i];
            if s.task_id() == task_id && s.status() == SessionStatus::Running {
                proof {
                    assert(s@ == self@.sessions[i as int]);
                }
                return Some(s);
            }
            i = i + 1;
        }
        None
    }

    /// Marks every running session of the task abandoned at `now`; its partial time is
    /// discarded. Other sessions are unchanged.
    pub fn abandon_running_sessions(&mut self, task_id: TaskId, now: Timestamp)
        requires
            old(self).wf(),
        ensures
            final(self).wf(),
            final(self)@ == (StoreView {
                sessions: abandon_running(old(self)@.sessions, task_id, now),
                ..old(self)@
            }),
    {
        let mut i: usize = 0;
        while i < self.sessions.len()
            invariant
                i <= self.sessions@.len(),
                self.sessions@.len() == old(self).sessions@.len(),
                self.tasks == old(self).tasks,
                self.transactions == old(self).transactions,
                self.notes == old(self).notes,
                forall|k: int|
                    0 <= k < i ==> (#[trigger] self.sessions@[k])@ == abandoned(
                        old(self).sessions@[k]@,
                        task_id,
                        now,
                    ),
                forall|k: int|
                    i <= k < self.sessions@.len() ==> #[trigger] self.sessions@[k]
                        == old(self).sessions@[k],
            decreases self.sessions.len() - i,
        {
            let mut s = self.sessions[i];
            if s.task_id() == task_id && s.status() == SessionStatus::Running {
                s.abandon(now);
                self.sessions.set(i, s);
            }
            i = i + 1;
        }
        proof {
            assert(self@.sessions =~= abandon_running(old(self)@.sessions, task_id, now));
            assert(self@.tasks =~= old(self)@.tasks);
            assert(self@.transactions =~= old(self)@.transactions);
            assert(self@.notes =~= old(self)@.notes);
            assert(self@.tags =~= old(self)@.tags);
            assert(self@.links =~= old(self)@.links);
        }
    }

    /// The most recent session (highest id) of the task, if any.
    pub fn last_session_of(&self, task_id: TaskId) -> (r: Option<PomodoroSession>)
        ensures
            r is None <==> sessions_of(self@.sessions, task_id).len() == 0,
            r matches Some(s) ==> s@ == sessions_of(self@.sessions, task_id).last(),
    {
        let mut i: usize = self.sessions.len();
        proof {
            assert(self@.sessions.take(i as int) =~= self@.sessions);
        }
        while i > 0
            invariant
                i <= self.sessions@.len(),
                sessions_of(self@.sessions, task_id) == sessions_of(
                    self@.sessions.take(i as int),
                    task_id,
                ),
            decreases i,
        {
            let s = self.sessions[i - 1];
            proof {
                assert(self@.sessions.take(i as int).drop_last() =~= self@.sessions.take(i - 1));
                assert(self@.sessions.take(i as int).last() == s@);
            }
            if s.task_id() == task_id {
                return Some(s);
            }
            i = i - 1;
        }
        None
    }

    // --- Bank ---

    /// Appends a ledger entry and returns it with its assigned id.
    ///
    /// # Errors
    /// Returns [`RepositoryError::NotFound`] if the entry names a task that does not
    /// exist, or a backend error when the ledger is full.
    pub fn append_transaction(
        &mut self,
        task_id: Option<TaskId>,
        amount_pomos: i32,
        transaction_type: BankTransactionType,
        note: Option<&str>,
        created_at: Timestamp,
    ) -> (r: Result<BankTransaction, RepositoryError>)
        requires
            old(self).wf(),
        ensures
            final(self).wf(),
            r is Ok <==> (task_id matches Some(t) ==> row_exists(
                t@,
                old(self)@.tasks.len() as int,
            )) && old(self)@.transactions.len() < MAX_ROWS,
            r matches Ok(t) ==> {
                &&& t@ == (BankTransactionView {
                    id: t@.id,
                    task_id,
                    amount_pomos,
                    transaction_type,
                    note: match note {
                        Some(n) => Some(n@),
                        None => None,
                    },
                    created_at,
                })
                &&& t@.id@ == old(self)@.transactions.len() + 1
                &&& final(self)@ == (StoreView {
                    transactions: old(self)@.transactions.push(t@),
                    ..old(self)@
                })
            },
            r is Err ==> final(self)@ == old(self)@,
            r matches Err(e) ==> if task_id matches Some(t) && !row_exists(
                t@,
                old(self)@.tasks.len() as int,
            ) {
                e == RepositoryError::NotFound
            } else {
                e is Backend
            },
    {
        if let Some(t) = task_id {
            let raw = t.value();
            if raw < 1 || raw > self.tasks.len() as i64 {
                return Err(RepositoryError::NotFound);
            }
        }
        if self.transactions.len() >= MAX_ROWS {
            return Err(RepositoryError::Backend { message: String::from_str("ledger is full") });
        }
        let id = BankTransactionId::new((self.transactions.len() + 1) as i64);
        let note_text = match note {
            Some(n) => Some(n.to_owned()),
            None => None,
        };
        let txn = BankTransaction::new(id, task_id, amount_pomos, transaction_type, note_text, created_at);
        let copy = txn.clone();
        self.transactions.push(copy);
        proof {
            assert(self@.transactions =~= old(self)@.transactions.push(txn@));
            assert(self@.tasks =~= old(self)@.tasks);
            assert(self@.sessions =~= old(self)@.sessions);
            assert(self@.notes =~= old(self)@.notes);
            assert(self@.tags =~= old(self)@.tags);
            assert(self@.links =~= old(self)@.links);
        }
        Ok(txn)
    }

    /// Lists all ledger entries, ordered by id.
    pub fn list_transactions(&self) -> (r: Vec<BankTransaction>)
        ensures
            ledger_views(r@) == self@.transactions,
    {
        let mut out: Vec<BankTransaction> = Vec::new();
        let mut i: usize = 0;
        while i < self.transactions.len()
            invariant
                i <= self.transactions@.len(),
                out@.len() == i,
                forall|k: int| 0 <= k < i ==> (#[trigger] out@[k])@ == self.transactions@[k]@,
            decreases self.transactions.len() - i,
        {
            let c = self.transactions[i].clone();
            out.push(c);
            i = i + 1;
        }
        proof {
            assert(ledger_views(out@) =~= self@.transactions);
        }
        out
    }

    /// The pomo balance: the sum of the ledger.
    pub fn balance(&self) -> (r: i64)
        requires
            self.wf(),
        ensures
            r == ledger_sum(self@.transactions),
    {
        let r = crate::domain::bank::balance(self.transactions.as_slice());
        proof {
            assert(ledger_views(self.transactions@) =~= self@.transactions);
        }
        r
    }

    // --- Notes ---

    /// Inserts a new note (not pinned, not archived, without tags or links) and returns
    /// it with its assigned id.
    ///
    /// # Errors
    /// [`RepositoryError::NotFound`] if the note names a task that does not exist, or a
    /// backend error when the note table is full.
    pub fn create_note(
        &mut self,
        title: &str,
        body_markdown: &str,
        task_id: Option<TaskId>,
        created_at: Timestamp,
    ) -> (r: Result<Note, RepositoryError>)
        requires
            old(self).wf(),
        ensures
            final(self).wf(),
            r is Ok <==> (task_id matches Some(t) ==> row_exists(
                t@,
                old(self)@.tasks.len() as int,
            )) && old(self)@.notes.len() < MAX_ROWS,
            r matches Ok(n) ==> {
                &&& n@ == (NoteView {
                    id: n@.id,
                    title: title@,
                    body_markdown: body_markdown@,
                    task_id,
                    pinned: false,
                    archived: false,
                    created_at,
                    updated_at: created_at,
                })
                &&& n@.id@ == old(self)@.notes.len() + 1
                &&& final(self)@ == (StoreView {
                    notes: old(self)@.notes.push(n@),
                    tags: old(self)@.tags.push(Seq::empty()),
                    links: old(self)@.links.push(Seq::empty()),
                    ..old(self)@
                })
            },
            r is Err ==> final(self)@ == old(self)@,
            r matches Err(e) ==> if task_id matches Some(t) && !row_exists(
                t@,
                old(self)@.tasks.len() as int,
            ) {
                e == RepositoryError::NotFound
            } else {
                e is Backend
            },
    {
        if let Some(t) = task_id {
            let raw = t.value();
            if raw < 1 || raw > self.tasks.len() as i64 {
                return Err(RepositoryError::NotFound);
            }
        }
        if self.notes.len() >= MAX_ROWS {
            return Err(RepositoryError::Backend { message: String::from_str("note table is full") });
        }
        let id = NoteId::new((self.notes.len() + 1) as i64);
        let note = Note::new(id, title.to_owned(), body_markdown.to_owned(), task_id, created_at);
        let record = NoteRow { note: note.clone(), tags: Vec::new(), links: Vec::new() };
        self.notes.push(record);
        proof {
            assert(self@.notes =~= old(self)@.notes.push(note@));
            assert(strings_view(Seq::<String>::empty()) =~= Seq::<Seq<char>>::empty());
            assert(self@.tags =~= old(self)@.tags.push(Seq::empty()));
            assert(self@.links =~= old(self)@.links.push(Seq::empty()));
            assert(self@.tasks =~= old(self)@.tasks);
            assert(self@.sessions =~= old(self)@.sessions);
            assert(self@.transactions =~= old(self)@.transactions);
            let v = self@;
            assert forall|i: int| 0 <= i < v.notes.len() implies links_valid(
                #[trigger] v.links[i],
                v.notes.len() as int,
            ) by {
                if i < old(self)@.notes.len() {
                    assert(links_valid(old(self)@.links[i], old(self)@.notes.len() as int));
                }
            }
        }
        Ok(note)
    }

    /// Fetches a note by id, or `None` if it does not exist.
    pub fn get_note(&self, id: NoteId) -> (r: Option<Note>)
        requires
            self.wf(),
        ensures
            r is Some <==> row_exists(id@, self@.notes.len() as int),
            r matches Some(n) ==> n@ == self@.notes[id@ - 1],
    {
        let raw = id.value();
        if raw < 1 || raw > self.notes.len() as i64 {
            return None;
        }
        let index = (raw - 1) as usize;
        Some(self.notes[index].note.clone())
    }

    /// Persists changes to an existing note (found by its id); its tags and links stay.
    ///
    /// # Errors
    /// [`RepositoryError::NotFound`] if no note has the note's id, or it names a task
    /// that does not exist.
    pub fn update_note(&mut self, note: &Note) -> (r: Result<(), RepositoryError>)
        requires
            old(self).wf(),
        ensures
            final(self).wf(),
            r is Ok <==> row_exists(note@.id@, old(self)@.notes.len() as int) && (
            note@.task_id matches Some(t) ==> row_exists(t@, old(self)@.tasks.len() as int)),
            r is Ok ==> final(self)@ == (StoreView {
                notes: old(self)@.notes.update(note@.id@ - 1, note@),
                ..old(self)@
            }),
            r matches Err(e) ==> e == RepositoryError::NotFound && final(self)@ == old(self)@,
    {
        let raw = note.id().value();
        if raw < 1 || raw > self.notes.len() as i64 {
            return Err(RepositoryError::NotFound);
        }
        if let Some(t) = note.task_id() {
            let task_raw = t.value();
            if task_raw < 1 || task_raw > self.tasks.len() as i64 {
                return Err(RepositoryError::NotFound);
            }
        }
        let index = (raw - 1) as usize;
        let old_record = self.notes.remove(index);
        let record = NoteRow { note: note.clone(), tags: old_record.tags, links: old_record.links };
        self.notes.insert(index, record);
        proof {
            assert(self@.notes =~= old(self)@.notes.update(note@.id@ - 1, note@));
            assert(self@.tags =~= old(self)@.tags);
            assert(self@.links =~= old(self)@.links);
            assert(self@.tasks =~= old(self)@.tasks);
            assert(self@.sessions =~= old(self)@.sessions);
            assert(self@.transactions =~= old(self)@.transactions);
        }
        Ok(())
    }

    /// The notes that satisfy the query, in the listing order (pinned first, then most
    /// recently updated, then by id).
    fn listing(&self, query: &Option<Vec<char>>) -> (r: Vec<Note>)
        requires
            self.wf(),
        ensures
            is_listing(
                note_views(r@),
                self@.notes,
                |n: NoteView|
                    match query {
                        Some(q) => search_matches(n, q@),
                        None => true,
                    },
            ),
    {
        let ghost keep = |n: NoteView|
            match query {
                Some(q) => search_matches(n, q@),
                None => true,
            };
        let mut out: Vec<Note> = Vec::new();
        let mut i: usize = 0;
        while i < self.notes.len()
            invariant
                self.wf(),
                i <= self@.notes.len(),
                keep == (|n: NoteView|
                    match query {
                        Some(q) => search_matches(n, q@),
                        None => true,
                    }),
                is_listing(note_views(out@), self@.notes.take(i as int), keep),
                forall|k: int| 0 <= k < out@.len() ==> (#[trigger] out@[k])@.id@ <= i,
            decreases self.notes.len() - i,
        {
            let candidate = &self.notes[i].note;
            let wanted = match query {
                Some(q) => {
                    let title = crate::text::chars_of(candidate.title());
                    let body = crate::text::chars_of(candidate.body_markdown());
                    crate::text::chars_contain_ignore_case(&title, q)
                        || crate::text::chars_contain_ignore_case(&body, q)
                },
                None => true,
            };
            let ghost prev = out@;
            proof {
                assert(candidate@ == self@.notes[i as int]);
                assert(candidate@.id@ == i + 1);
                assert(wanted == keep(candidate@));
            }
            let ghost cv = candidate@;
            let ghost mut p: int = 0;
            if wanted {
                proof {
                    assert forall|a: int, b: int| 0 <= a < b < out@.len() implies note_before(
                        #[trigger] out@[a]@,
                        #[trigger] out@[b]@,
                    ) by {
                        assert(note_views(out@)[a] == out@[a]@);
                        assert(note_views(out@)[b] == out@[b]@);
                    }
                }
                insert_in_order(&mut out, candidate.clone());
                proof {
                    p = choose|p: int|
                        0 <= p <= prev.len() && note_views(out@) == note_views(prev).insert(p, cv);
                }
            }
            proof {
                let taken = self@.notes.take(i + 1);
                let pv = note_views(prev);
                let ov = note_views(out@);
                assert(taken =~= self@.notes.take(i as int).push(cv));
                if !wanted {
                    assert(ov =~= pv);
                }
                assert forall|k: int| 0 <= k < ov.len() implies keep(#[trigger] ov[k]) && taken.contains(
                    ov[k],
                ) && ov[k].id@ <= i + 1 by {
                    if wanted && k == p {
                        assert(taken[i as int] == cv);
                    } else {
                        let j = if wanted && k > p { k - 1 } else { k };
                        assert(ov[k] == pv[j]);
                        assert(pv[j] == prev[j]@);
                        let m = choose|m: int| 0 <= m < i && self@.notes.take(i as int)[m] == pv[j];
                        assert(taken[m] == pv[j]);
                    }
                }
                assert forall|k: int| 0 <= k < taken.len() && keep(#[trigger] taken[k]) implies ov.contains(
                    taken[k],
                ) by {
                    if k < i {
                        assert(self@.notes.take(i as int)[k] == taken[k]);
                        let m = choose|m: int| 0 <= m < pv.len() && pv[m] == taken[k];
                        if wanted && m >= p {
                            assert(ov[m + 1] == taken[k]);
                        } else {
                            assert(ov[m] == taken[k]);
                        }
                    } else {
                        assert(ov[p] == taken[k]);
                    }
                }
                assert forall|a: int, b: int| 0 <= a < b < ov.len() implies note_before(
                    #[trigger] ov[a],
                    #[trigger] ov[b],
                ) by {
                    if wanted {
                        assert(ov[a] == out@[a]@);
                        assert(ov[b] == out@[b]@);
                    } else {
                        assert(ov[a] == pv[a]);
                        assert(ov[b] == pv[b]);
                    }
                }
                assert forall|k: int| 0 <= k < out@.len() implies (#[trigger] out@[k])@.id@ <= i + 1 by {
                    assert(ov[k] == out@[k]@);
                }
            }
            i = i + 1;
        }
        proof {
            assert(self@.notes.take(i as int) =~= self@.notes);
        }
        out
    }

    /// Lists all notes: pinned first, then most recently updated (ties by id).
    pub fn list_notes(&self) -> (r: Vec<Note>)
        requires
            self.wf(),
        ensures
            is_listing(note_views(r@), self@.notes, |n: NoteView| true),
    {
        self.listing(&None)
    }

    /// Lists the notes whose title or body contains `query` (ignoring ASCII case), in
    /// the listing order.
    pub fn search_notes(&self, query: &str) -> (r: Vec<Note>)
        requires
            self.wf(),
        ensures
            is_listing(note_views(r@), self@.notes, |n: NoteView| search_matches(n, query@)),
    {
        let q = crate::text::chars_of(query);
        self.listing(&Some(q))
    }

    /// Lists the notes attached to a task, newest (highest id) first.
    pub fn list_notes_for_task(&self, task_id: TaskId) -> (r: Vec<Note>)
        requires
            self.wf(),
        ensures
            note_views(r@) == notes_of_task_newest_first(self@.notes, task_id),
    {
        let mut out: Vec<Note> = Vec::new();
        let mut i: usize = self.notes.len();
        proof {
            assert(self@.notes.take(i as int) =~= self@.notes);
            assert(note_views(out@) =~= Seq::<NoteView>::empty());
            assert(Seq::<NoteView>::empty() + notes_of_task_newest_first(self@.notes, task_id)
                =~= notes_of_task_newest_first(self@.notes, task_id));
        }
        while i > 0
            invariant
                i <= self@.notes.len(),
                note_views(out@) + notes_of_task_newest_first(self@.notes.take(i as int), task_id)
                    == notes_of_task_newest_first(self@.notes, task_id),
            decreases i,
        {
            let candidate = &self.notes[i - 1].note;
            proof {
                let taken = self@.notes.take(i as int);
                assert(taken.drop_last() =~= self@.notes.take(i - 1));
                assert(taken.last() == candidate@);
            }
            if candidate.task_id() == Some(task_id) {
                out.push(candidate.clone());
                proof {
                    let rest = notes_of_task_newest_first(self@.notes.take(i - 1), task_id);
                    assert(note_views(out@) + rest =~= note_views(out@).drop_last() + (seq![candidate@] + rest));
                }
            }
            i = i - 1;
        }
        proof {
            assert(note_views(out@) + Seq::<NoteView>::empty() =~= note_views(out@));
        }
        out
    }

    /// Replaces the whole set of tags on a note; they are kept sorted and without
    /// duplicates.
    ///
    /// # Errors
    /// [`RepositoryError::NotFound`] if the note does not exist and tags are given.
    pub fn set_note_tags(&mut self, note_id: NoteId, tags: &[String]) -> (r: Result<(), RepositoryError>)
        requires
            old(self).wf(),
        ensures
            final(self).wf(),
            r is Ok <==> row_exists(note_id@, old(self)@.notes.len() as int) || tags@.len() == 0,
            r is Err ==> final(self)@ == old(self)@,
            r matches Err(e) ==> e == RepositoryError::NotFound,
            r is Ok && row_exists(note_id@, old(self)@.notes.len() as int) ==> {
                let stored = final(self)@.tags[note_id@ - 1];
                &&& tags_sorted(stored)
                &&& forall|t: Seq<char>| #[trigger] stored.contains(t) <==> strings_view(tags@).contains(t)
                &&& final(self)@ == (StoreView {
                    tags: old(self)@.tags.update(note_id@ - 1, stored),
                    ..old(self)@
                })
            },
            r is Ok && !row_exists(note_id@, old(self)@.notes.len() as int) ==> final(self)@ == old(self)@,
    {
        let raw = note_id.value();
        if raw < 1 || raw > self.notes.len() as i64 {
            if tags.len() == 0 {
                return Ok(());
            }
            return Err(RepositoryError::NotFound);
        }
        let sorted = sorted_distinct_tags(tags);
        let index = (raw - 1) as usize;
        let old_record = self.notes.remove(index);
        let record = NoteRow { note: old_record.note, tags: sorted, links: old_record.links };
        self.notes.insert(index, record);
        proof {
            assert(self@.tags =~= old(self)@.tags.update(note_id@ - 1, strings_view(sorted@)));
            assert(self@.notes =~= old(self)@.notes);
            assert(self@.links =~= old(self)@.links);
            assert(self@.tasks =~= old(self)@.tasks);
            assert(self@.sessions =~= old(self)@.sessions);
            assert(self@.transactions =~= old(self)@.transactions);
        }
        Ok(())
    }

    /// A note's tags, sorted by code point; empty for a note that does not exist.
    pub fn note_tags(&self, note_id: NoteId) -> (r: Vec<String>)
        requires
            self.wf(),
        ensures
            row_exists(note_id@, self@.notes.len() as int) ==> strings_view(r@) == self@.tags[note_id@ - 1],
            !row_exists(note_id@, self@.notes.len() as int) ==> r@.len() == 0,
    {
        let raw = note_id.value();
        if raw < 1 || raw > self.notes.len() as i64 {
            return Vec::new();
        }
        let index = (raw - 1) as usize;
        let tags = &self.notes[index].tags;
        let mut out: Vec<String> = Vec::new();
        let mut i: usize = 0;
        while i < tags.len()
            invariant
                i <= tags@.len(),
                strings_view(out@) == strings_view(tags@).take(i as int),
            decreases tags.len() - i,
        {
            let ghost prev = out@;
            out.push(tags[i].clone());
            proof {
                assert(out@ =~= prev.push(tags@[i as int]));
                assert(strings_view(out@) =~= strings_view(prev).push(tags@[i as int]@));
                assert(strings_view(tags@).take(i + 1) =~= strings_view(tags@).take(i as int).push(
                    tags@[i as int]@,
                ));
            }
            i = i + 1;
        }
        proof {
            assert(strings_view(tags@).take(i as int) =~= strings_view(tags@));
        }
        out
    }

    /// Replaces the whole set of outgoing links from a note (duplicates dropped, order
    /// of first appearance kept).
    ///
    /// # Errors
    /// [`RepositoryError::NotFound`] if a linked note does not exist, or the source
    /// note does not exist and links are given.
    pub fn set_note_links(&mut self, from_note_id: NoteId, to_note_ids: &[NoteId]) -> (r: Result<
        (),
        RepositoryError,
    >)
        requires
            old(self).wf(),
        ensures
            final(self).wf(),
            r is Ok <==> (row_exists(from_note_id@, old(self)@.notes.len() as int) || to_note_ids@.len()
                == 0) && forall|k: int|
                0 <= k < to_note_ids@.len() ==> row_exists(
                    (#[trigger] to_note_ids@[k])@,
                    old(self)@.notes.len() as int,
                ),
            r is Err ==> final(self)@ == old(self)@,
            r matches Err(e) ==> e == RepositoryError::NotFound,
            r is Ok && row_exists(from_note_id@, old(self)@.notes.len() as int) ==> final(self)@ == (
            StoreView {
                links: old(self)@.links.update(from_note_id@ - 1, dedup_ids(to_note_ids@)),
                ..old(self)@
            }),
            r is Ok && !row_exists(from_note_id@, old(self)@.notes.len() as int) ==> final(self)@
                == old(self)@,
    {
        let n = self.notes.len() as i64;
        let mut k: usize = 0;
        while k < to_note_ids.len()
            invariant
                k <= to_note_ids@.len(),
                self.wf(),
                self@ == old(self)@,
                n == self@.notes.len(),
                forall|m: int| 0 <= m < k ==> row_exists((#[trigger] to_note_ids@[m])@, n as int),
            decreases to_note_ids.len() - k,
        {
            let raw = to_note_ids[k].value();
            if raw < 1 || raw > n {
                return Err(RepositoryError::NotFound);
            }
            k = k + 1;
        }
        let raw = from_note_id.value();
        if raw < 1 || raw > n {
            if to_note_ids.len() == 0 {
                return Ok(());
            }
            return Err(RepositoryError::NotFound);
        }
        let mut links: Vec<NoteId> = Vec::new();
        let mut i: usize = 0;
        while i < to_note_ids.len()
            invariant
                i <= to_note_ids@.len(),
                links@ == dedup_ids(to_note_ids@.take(i as int)),
            decreases to_note_ids.len() - i,
        {
            let id = to_note_ids[i];
            let mut seen = false;
            let mut j: usize = 0;
            while j < links.len()
                invariant
                    j <= links@.len(),
                    seen == exists|m: int| 0 <= m < j && (#[trigger] links@[m])@ == id@,
                decreases links.len() - j,
            {
                if links[j].value() == id.value() {
                    seen = true;
                }
                j = j + 1;
            }
            proof {
                assert(to_note_ids@.take(i + 1).drop_last() =~= to_note_ids@.take(i as int));
                assert(to_note_ids@.take(i + 1).last() == id);
            }
            if !seen {
                links.push(id);
            }
            i = i + 1;
        }
        proof {
            assert(to_note_ids@.take(i as int) =~= to_note_ids@);
            lemma_dedup_ids_valid(to_note_ids@, n as int);
        }
        let index = (raw - 1) as usize;
        let old_record = self.notes.remove(index);
        let record = NoteRow { note: old_record.note, tags: old_record.tags, links };
        self.notes.insert(index, record);
        proof {
            assert(self@.links =~= old(self)@.links.update(from_note_id@ - 1, dedup_ids(to_note_ids@)));
            assert(self@.notes =~= old(self)@.notes);
            assert(self@.tags =~= old(self)@.tags);
            assert(self@.tasks =~= old(self)@.tasks);
            assert(self@.sessions =~= old(self)@.sessions);
            assert(self@.transactions =~= old(self)@.transactions);
        }
        Ok(())
    }

    /// The ids of the notes that link to `to_note_id` (its backlinks), by ascending id.
    pub fn backlinks(&self, to_note_id: NoteId) -> (r: Vec<NoteId>)
        requires
            self.wf(),
        ensures
            r@ == backlinks_of(self@, to_note_id, self@.notes.len() as int),
    {
        let mut out: Vec<NoteId> = Vec::new();
        let mut i: usize = 0;
        while i < self.notes.len()
            invariant
                self.wf(),
                i <= self@.notes.len(),
                out@ == backlinks_of(self@, to_note_id, i as int),
            decreases self.notes.len() - i,
        {
            let links = &self.notes[i].links;
            let mut found = false;
            let mut j: usize = 0;
            while j < links.len()
                invariant
                    j <= links@.len(),
                    found == exists|m: int| 0 <= m < j && (#[trigger] links@[m])@ == to_note_id@,
                decreases links.len() - j,
            {
                if links[j].value() == to_note_id.value() {
                    found = true;
                }
                j = j + 1;
            }
            proof {
                assert(links@ == self@.links[i as int]);
                assert(self@.notes[i as int].id@ == i + 1);
            }
            if found {
                out.push(self.notes[i].note.id());
            }
            i = i + 1;
        }
        out
    }

    /// Lists all sessions for a task, ordered by id.
    pub fn list_sessions_for_task(&self, task_id: TaskId) -> (r: Vec<PomodoroSession>)
        ensures
            session_views(r@) == sessions_of(self@.sessions, task_id),
    {
        let mut out: Vec<PomodoroSession> = Vec::new();
        let mut i: usize = 0;
        while i < self.sessions.len()
            invariant
                i <= self.sessions@.len(),
                session_views(out@) == sessions_of(self@.sessions.take(i as int), task_id),
            decreases self.sessions.len() - i,
        {
            proof {
                assert(self@.sessions.take(i + 1).drop_last() =~= self@.sessions.take(i as int));
            }
            let s = self.sessions[i];
            if s.task_id() == task_id {
                out.push(s);
            }
            proof {
                assert(session_views(out@) =~= sessions_of(self@.sessions.take(i + 1), task_id));
            }
            i = i + 1;
        }
        proof {
            assert(self@.sessions.take(i as int) =~= self@.sessions);
        }
        out
    }
}

/// The sessions of a task, in id order.
pub open spec fn sessions_of(sessions: Seq<SessionView>, task_id: TaskId) -> Seq<SessionView>
    decreases sessions.len(),
{
    if sessions.len() == 0 {
        sessions
    } else {
        let earlier = sessions_of(sessions.drop_last(), task_id);
        if sessions.last().task_id == task_id {
            earlier.push(sessions.last())
        } else {
            earlier
        }
    }
}

/// Whether a session is a running session of the task.
pub open spec fn is_running_of(s: SessionView, task_id: TaskId) -> bool {
    s.task_id == task_id && s.status == SessionStatus::Running
}

/// A session with a running session of the task replaced by its abandonment at `now`.
pub open spec fn abandoned(s: SessionView, task_id: TaskId, now: Timestamp) -> SessionView {
    if is_running_of(s, task_id) {
        SessionView { status: SessionStatus::Abandoned, finished_at: Some(now), ..s }
    } else {
        s
    }
}

/// Every running session of the task abandoned at `now`.
pub open spec fn abandon_running(
    sessions: Seq<SessionView>,
    task_id: TaskId,
    now: Timestamp,
) -> Seq<SessionView> {
    sessions.map_values(|s: SessionView| abandoned(s, task_id, now))
}

/// The listing order of notes: pinned first, then most recently updated, then by id.
pub open spec fn note_before(a: NoteView, b: NoteView) -> bool {
    ||| a.pinned && !b.pinned
    ||| a.pinned == b.pinned && a.updated_at.total_nanos() > b.updated_at.total_nanos()
    ||| a.pinned == b.pinned && a.updated_at.total_nanos() == b.updated_at.total_nanos() && a.id@
        < b.id@
}

/// The listing order is a strict total order on notes with distinct ids.
pub proof fn lemma_note_order(a: NoteView, b: NoteView, c: NoteView)
    ensures
        !note_before(a, a),
        note_before(a, b) ==> !note_before(b, a),
        note_before(a, b) && note_before(b, c) ==> note_before(a, c),
        a.id@ != b.id@ ==> note_before(a, b) || note_before(b, a),
{
}

/// `listing` holds exactly the notes of `notes` that satisfy `keep`, each once, in the
/// listing order.
pub open spec fn is_listing(
    listing: Seq<NoteView>,
    notes: Seq<NoteView>,
    keep: spec_fn(NoteView) -> bool,
) -> bool {
    &&& forall|a: int, b: int|
        0 <= a < b < listing.len() ==> note_before(#[trigger] listing[a], #[trigger] listing[b])
    &&& forall|k: int|
        0 <= k < listing.len() ==> keep(#[trigger] listing[k]) && notes.contains(listing[k])
    &&& forall|k: int| 0 <= k < notes.len() && keep(#[trigger] notes[k]) ==> listing.contains(notes[k])
}

/// Whether a note's title or body contains `query`, ignoring ASCII case.
pub open spec fn search_matches(n: NoteView, query: Seq<char>) -> bool {
    contains_ignore_case(n.title, query) || contains_ignore_case(n.body_markdown, query)
}

/// The views of a vector of notes.
pub open spec fn note_views(notes: Seq<Note>) -> Seq<NoteView> {
    notes.map_values(|n: Note| n@)
}

/// Whether `a` comes before `b` in the listing order.
pub fn note_precedes(a: &Note, b: &Note) -> (r: bool)
    ensures
        r == note_before(a@, b@),
{
    if a.pinned() != b.pinned() {
        return a.pinned();
    }
    let ta = a.updated_at();
    let tb = b.updated_at();
    if ta.is_after(&tb) {
        return true;
    }
    if ta.same_instant(&tb) {
        return a.id().value() < b.id().value();
    }
    false
}

/// Inserts `note` into a listing kept in the listing order.
fn insert_in_order(listing: &mut Vec<Note>, note: Note)
    requires
        forall|a: int, b: int|
            0 <= a < b < old(listing)@.len() ==> note_before(
                #[trigger] old(listing)@[a]@,
                #[trigger] old(listing)@[b]@,
            ),
        forall|k: int| 0 <= k < old(listing)@.len() ==> (#[trigger] old(listing)@[k])@.id@ != note@.id@,
    ensures
        exists|p: int|
            0 <= p <= old(listing)@.len() && note_views(final(listing)@) == note_views(
                old(listing)@,
            ).insert(p, note@),
        forall|a: int, b: int|
            0 <= a < b < final(listing)@.len() ==> note_before(
                #[trigger] final(listing)@[a]@,
                #[trigger] final(listing)@[b]@,
            ),
{
    let mut p: usize = 0;
    while p < listing.len() && !note_precedes(&note, &listing[p])
        invariant
            p <= listing@.len(),
            listing@ == old(listing)@,
            forall|k: int| 0 <= k < p ==> !note_before(note@, #[trigger] listing@[k]@),
        decreases listing.len() - p,
    {
        p = p + 1;
    }
    let ghost before = listing@;
    listing.insert(p, note);
    proof {
        assert(note_views(listing@) =~= note_views(before).insert(p as int, note@));
        assert forall|a: int, b: int|
            0 <= a < b < listing@.len() implies note_before(
                #[trigger] listing@[a]@,
                #[trigger] listing@[b]@,
            ) by {
            let x = note@;
            if a < p && b == p {
                lemma_note_order(x, before[a]@, x);
                lemma_note_order(before[a]@, x, x);
            } else if a < p && b > p {
                assert(listing@[b] == before[b - 1]);
            } else if a == p && b > p {
                assert(listing@[b] == before[b - 1]);
                if b - 1 > p {
                    lemma_note_order(x, before[p as int]@, before[b - 1]@);
                }
            } else if a > p {
                assert(listing@[a] == before[a - 1]);
                assert(listing@[b] == before[b - 1]);
            }
        }
    }
}

/// The notes attached to a task, highest id first.
pub open spec fn notes_of_task_newest_first(notes: Seq<NoteView>, task_id: TaskId) -> Seq<NoteView>
    decreases notes.len(),
{
    if notes.len() == 0 {
        notes
    } else {
        let rest = notes_of_task_newest_first(notes.drop_last(), task_id);
        if notes.last().task_id == Some(task_id) {
            seq![notes.last()] + rest
        } else {
            rest
        }
    }
}

/// The ids in order of first appearance, each once.
pub open spec fn dedup_ids(ids: Seq<NoteId>) -> Seq<NoteId>
    decreases ids.len(),
{
    if ids.len() == 0 {
        ids
    } else {
        let earlier = dedup_ids(ids.drop_last());
        if exists|m: int| 0 <= m < earlier.len() && (#[trigger] earlier[m])@ == ids.last()@ {
            earlier
        } else {
            earlier.push(ids.last())
        }
    }
}

/// Deduplicated ids of existing notes are valid outgoing links.
proof fn lemma_dedup_ids_valid(ids: Seq<NoteId>, note_count: int)
    requires
        forall|k: int| 0 <= k < ids.len() ==> row_exists((#[trigger] ids[k])@, note_count),
    ensures
        links_valid(dedup_ids(ids), note_count),
        forall|k: int| 0 <= k < dedup_ids(ids).len() ==> ids.contains(#[trigger] dedup_ids(ids)[k]),
    decreases ids.len(),
{
    if ids.len() > 0 {
        let init = ids.drop_last();
        assert forall|k: int| 0 <= k < init.len() implies row_exists((#[trigger] init[k])@, note_count) by {
            assert(init[k] == ids[k]);
        }
        lemma_dedup_ids_valid(init, note_count);
        let earlier = dedup_ids(init);
        assert forall|k: int| 0 <= k < earlier.len() implies ids.contains(#[trigger] earlier[k]) by {
            let m = choose|m: int| 0 <= m < init.len() && init[m] == earlier[k];
            assert(ids[m] == earlier[k]);
        }
        assert(ids[ids.len() - 1] == ids.last());
    }
}

/// The ids (ascending) of the first `upto` notes whose links contain `to_note_id`.
pub open spec fn backlinks_of(v: StoreView, to_note_id: NoteId, upto: int) -> Seq<NoteId>
    decreases upto,
{
    if upto <= 0 {
        Seq::empty()
    } else {
        let earlier = backlinks_of(v, to_note_id, upto - 1);
        if exists|m: int| 0 <= m < v.links[upto - 1].len() && (#[trigger] v.links[upto - 1][m])@ == to_note_id@ {
            earlier.push(v.notes[upto - 1].id)
        } else {
            earlier
        }
    }
}

/// Among the first `upto` notes, a note is listed as linking to `target` exactly when
/// `target` is one of its stored links, at any position.
proof fn lemma_backlinks_upto(v: StoreView, target: NoteId, n: NoteId, upto: int)
    requires
        store_view_wf(v),
        0 <= upto <= v.notes.len(),
    ensures
        backlinks_of(v, target, upto).contains(n) <==> 1 <= n@ <= upto && v.links[n@ - 1].contains(
            target,
        ),
    decreases upto,
{
    broadcast use crate::domain::ids::NoteId::lemma_view_injective;

    if upto > 0 {
        lemma_backlinks_upto(v, target, n, upto - 1);
        let earlier = backlinks_of(v, target, upto - 1);
        let last = v.notes[upto - 1].id;
        assert(last@ == upto);
        if v.links[upto - 1].contains(target) {
            let m = choose|m: int| 0 <= m < v.links[upto - 1].len() && #[trigger] v.links[upto - 1][m] == target;
            assert(v.links[upto - 1][m]@ == target@);
        }
        if exists|m: int| 0 <= m < v.links[upto - 1].len() && (#[trigger] v.links[upto - 1][m])@
            == target@ {
            let m = choose|m: int| 0 <= m < v.links[upto - 1].len() && (#[trigger] v.links[upto
                - 1][m])@ == target@;
            assert(v.links[upto - 1][m] == target);
            assert(earlier.push(last).contains(n) <==> earlier.contains(n) || n == last) by {
                if n == last {
                    assert(earlier.push(last)[earlier.len() as int] == last);
                }
                if earlier.contains(n) {
                    let k = choose|k: int| 0 <= k < earlier.len() && #[trigger] earlier[k] == n;
                    assert(earlier.push(last)[k] == n);
                }
                if earlier.push(last).contains(n) && n != last {
                    let k = choose|k: int| 0 <= k < earlier.len() + 1 && #[trigger] earlier.push(last)[k] == n;
                    assert(earlier[k] == n);
                }
            }
        }
    }
}

/// A note is a backlink of `target` exactly when `target` is among its stored outgoing
/// links, at any position: every stored link counts, not only the first.
pub proof fn lemma_backlinks_are_the_linking_notes(v: StoreView, target: NoteId, n: NoteId)
    requires
        store_view_wf(v),
    ensures
        backlinks_of(v, target, v.notes.len() as int).contains(n) <==> row_exists(
            n@,
            v.notes.len() as int,
        ) && v.links[n@ - 1].contains(target),
{
    lemma_backlinks_upto(v, target, n, v.notes.len() as int);
}

/// A tag list with the tags of `tags`, each once, sorted by code point.
fn sorted_distinct_tags(tags: &[String]) -> (r: Vec<String>)
    ensures
        tags_sorted(strings_view(r@)),
        forall|t: Seq<char>| #[trigger] strings_view(r@).contains(t) <==> strings_view(tags@).contains(t),
{
    let mut out: Vec<String> = Vec::new();
    let mut i: usize = 0;
    while i < tags.len()
        invariant
            i <= tags@.len(),
            tags_sorted(strings_view(out@)),
            forall|t: Seq<char>|
                #![trigger strings_view(out@).contains(t)]
                #![trigger strings_view(tags@).take(i as int).contains(t)]
                strings_view(out@).contains(t) <==> strings_view(tags@).take(i as int).contains(t),
        decreases tags.len() - i,
    {
        let tag = tags[i].clone();
        let chars = crate::text::chars_of(tag.as_str());
        let mut p: usize = 0;
        let mut duplicate = false;
        while p < out.len()
            invariant_except_break
                !duplicate,
            invariant
                p <= out@.len(),
                chars@ == tag@,
                forall|k: int| 0 <= k < p ==> seq_less(#[trigger] strings_view(out@)[k], tag@),
            ensures
                p <= out@.len(),
                forall|k: int| 0 <= k < p ==> seq_less(#[trigger] strings_view(out@)[k], tag@),
                duplicate ==> p < out@.len() && !seq_less(strings_view(out@)[p as int], tag@)
                    && !seq_less(tag@, strings_view(out@)[p as int]),
                !duplicate ==> p == out@.len() || seq_less(tag@, strings_view(out@)[p as int]),
            decreases out.len() - p,
        {
            let existing = crate::text::chars_of(out[p].as_str());
            proof {
                assert(strings_view(out@)[p as int] == out@[p as int]@);
            }
            if crate::text::chars_less(existing.as_slice(), chars.as_slice()) {
                p = p + 1;
            } else {
                duplicate = !crate::text::chars_less(chars.as_slice(), existing.as_slice());
                break;
            }
        }
        let ghost before = strings_view(out@);
        proof {
            crate::text::lemma_seq_order_total(tag@, tag@);
            if p < out@.len() {
                crate::text::lemma_seq_order_total(tag@, before[p as int]);
            }
        }
        if !duplicate {
            out.insert(p, tag);
        }
        proof {
            let now_view = strings_view(out@);
            let taken = strings_view(tags@).take(i + 1);
            assert(taken =~= strings_view(tags@).take(i as int).push(tags@[i as int]@));
            if !duplicate {
                assert(now_view =~= before.insert(p as int, tags@[i as int]@));
                assert forall|a: int, b: int| 0 <= a < b < now_view.len() implies seq_less(
                    #[trigger] now_view[a],
                    #[trigger] now_view[b],
                ) by {
                    let x = tags@[i as int]@;
                    if a < p && b == p {
                    } else if a < p && b > p {
                        assert(now_view[b] == before[b - 1]);
                    } else if a == p && b > p {
                        assert(now_view[b] == before[b - 1]);
                        if b - 1 > p {
                            crate::text::lemma_seq_less_transitive(x, before[p as int], before[b - 1]);
                        }
                    } else if a > p {
                        assert(now_view[a] == before[a - 1]);
                        assert(now_view[b] == before[b - 1]);
                    }
                }
                assert forall|t: Seq<char>| #[trigger] now_view.contains(t) <==> taken.contains(t) by {
                    if now_view.contains(t) {
                        let k = choose|k: int| 0 <= k < now_view.len() && now_view[k] == t;
                        if k < p {
                            assert(before[k] == t);
                        } else if k > p {
                            assert(before[k - 1] == t);
                        } else {
                            assert(taken[i as int] == t);
                        }
                        if t != tags@[i as int]@ {
                            assert(before.contains(t));
                            let m = choose|m: int| 0 <= m < i && strings_view(tags@).take(i as int)[m] == t;
                            assert(taken[m] == t);
                        }
                    }
                    if taken.contains(t) {
                        let m = choose|m: int| 0 <= m < taken.len() && taken[m] == t;
                        if m < i {
                            assert(strings_view(tags@).take(i as int)[m] == t);
                            assert(strings_view(tags@).take(i as int).contains(t));
                            let k = choose|k: int| 0 <= k < before.len() && before[k] == t;
                            if k < p {
                                assert(now_view[k] == t);
                            } else {
                                assert(now_view[k + 1] == t);
                            }
                        } else {
                            assert(now_view[p as int] == t);
                        }
                    }
                }
            } else {
                assert(before[p as int] == tags@[i as int]@);
                assert forall|t: Seq<char>| #[trigger] now_view.contains(t) <==> taken.contains(t) by {
                    if taken.contains(t) {
                        let m = choose|m: int| 0 <= m < taken.len() && taken[m] == t;
                        if m < i {
                            assert(strings_view(tags@).take(i as int)[m] == t);
                            assert(strings_view(tags@).take(i as int).contains(t));
                        } else {
                            assert(now_view[p as int] == t);
                        }
                    }
                    if now_view.contains(t) {
                        assert(strings_view(tags@).take(i as int).contains(t));
                        let m = choose|m: int| 0 <= m < i && strings_view(tags@).take(i as int)[m] == t;
                        assert(taken[m] == t);
                    }
                }
            }
        }
        i = i + 1;
    }
    proof {
        assert(strings_view(tags@).take(i as int) =~= strings_view(tags@));
    }
    out
}

/// Whether a session is a completed focus pomo of the task.
pub open spec fn counts_for(s: SessionView, task_id: TaskId) -> bool {
    s.task_id == task_id && is_completed_focus(s)
}

/// The number of completed focus sessions of one task.
pub open spec fn task_focus_count(sessions: Seq<SessionView>, task_id: TaskId) -> nat
    decreases sessions.len(),
{
    if sessions.len() == 0 {
        0
    } else {
        task_focus_count(sessions.drop_last(), task_id) + if counts_for(sessions.last(), task_id) {
            1nat
        } else {
            0nat
        }
    }
}

/// Counting the completed focus pomos in a task's listing counts them in the store.
pub proof fn lemma_focus_count_of(sessions: Seq<SessionView>, task_id: TaskId)
    ensures
        completed_focus_count(sessions_of(sessions, task_id)) == task_focus_count(sessions, task_id),
    decreases sessions.len(),
{
    if sessions.len() > 0 {
        lemma_focus_count_of(sessions.drop_last(), task_id);
        let earlier = sessions_of(sessions.drop_last(), task_id);
        if sessions.last().task_id == task_id {
            assert(earlier.push(sessions.last()).drop_last() =~= earlier);
        }
    }
}

/// Replacing one session changes a task's count by the difference of the two
/// sessions' contributions.
pub proof fn lemma_task_count_update(
    sessions: Seq<SessionView>,
    j: int,
    x: SessionView,
    task_id: TaskId,
)
    requires
        0 <= j < sessions.len(),
    ensures
        task_focus_count(sessions.update(j, x), task_id) + (if counts_for(sessions[j], task_id) {
            1int
        } else {
            0int
        }) == task_focus_count(sessions, task_id) + (if counts_for(x, task_id) {
            1int
        } else {
            0int
        }),
    decreases sessions.len(),
{
    if j < sessions.len() - 1 {
        lemma_task_count_update(sessions.drop_last(), j, x, task_id);
        assert(sessions.update(j, x).drop_last() =~= sessions.drop_last().update(j, x));
    } else {
        assert(sessions.update(j, x).drop_last() =~= sessions.drop_last());
    }
}

/// Appending a session adds its contribution to a task's count.
pub proof fn lemma_task_count_push(sessions: Seq<SessionView>, x: SessionView, task_id: TaskId)
    ensures
        task_focus_count(sessions.push(x), task_id) == task_focus_count(sessions, task_id) + if counts_for(x, task_id) {
            1nat
        } else {
            0nat
        },
{
    assert(sessions.push(x).drop_last() =~= sessions);
}

} // verus!
