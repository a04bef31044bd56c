//! Notes: the independent Markdown notebook.
//!
//! Notes stand alone; the only tie to a task is an optional `task_id`, set solely by
//! the quick-jot flow.

use vstd::prelude::*;

use crate::domain::ids::{NoteId, TaskId};
use crate::time::Timestamp;

verus! {

/// The abstract contents of a [`Note`].
pub ghost struct NoteView {
    pub id: NoteId,
    pub title: Seq<char>,
    pub body_markdown: Seq<char>,
    pub task_id: Option<TaskId>,
    pub pinned: bool,
    pub archived: bool,
    pub created_at: Timestamp,
    pub updated_at: Timestamp,
}

/// A Markdown note.
#[derive(Debug, PartialEq, Eq)]
pub struct Note {
    id: NoteId,
    title: String,
    body_markdown: String,
    task_id: Option<TaskId>,
    pinned: bool,
    archived: bool,
    created_at: Timestamp,
    updated_at: Timestamp,
}

impl View for Note {
    type V = NoteView;

    closed spec fn view(&self) -> NoteView {
        NoteView {
            id: self.id,
            title: self.title@,
            body_markdown: self.body_markdown@,
            task_id: self.task_id,
            pinned: self.pinned,
            archived: self.archived,
            created_at: self.created_at,
            updated_at: self.updated_at,
        }
    }
}

impl Clone for Note {
    fn clone(&self) -> (r: Self)
        ensures
            r@ == self@,
    {
        Note {
            id: self.id,
            title: self.title.clone(),
            body_markdown: self.body_markdown.clone(),
            task_id: self.task_id,
            pinned: self.pinned,
            archived: self.archived,
            created_at: self.created_at,
            updated_at: self.updated_at,
        }
    }
}

impl Note {
    /// Creates a new note (not pinned, not archived); `updated_at` starts at
    /// `created_at`.
    pub fn new(
        id: NoteId,
        title: String,
        body_markdown: String,
        task_id: Option<TaskId>,
        created_at: Timestamp,
    ) -> (r: Self)
        ensures
            r@ == (NoteView {
                id,
                title: title@,
                body_markdown: body_markdown@,
                task_id,
                pinned: false,
                archived: false,
                created_at,
                updated_at: created_at,
            }),
    {
        Note {
            id,
            title,
            body_markdown,
            task_id,
            pinned: false,
            archived: false,
            created_at,
            updated_at: created_at,
        }
    }

    /// Reconstructs a note from persisted fields.
    pub fn from_fields(
        id: NoteId,
        title: String,
        body_markdown: String,
        task_id: Option<TaskId>,
        pinned: bool,
        archived: bool,
        created_at: Timestamp,
        updated_at: Timestamp,
    ) -> (r: Self)
        ensures
            r@ == (NoteView {
                id,
                title: title@,
                body_markdown: body_markdown@,
                task_id,
                pinned,
                archived,
                created_at,
                updated_at,
            }),
    {
        Note { id, title, body_markdown, task_id, pinned, archived, created_at, updated_at }
    }

    /// The note's identifier.
    pub fn id(&self) -> (r: NoteId)
        ensures
            r == self@.id,
    {
        self.id
    }

    /// The note's title.
    pub fn title(&self) -> (r: &str)
        ensures
            r@ == self@.title,
    {
        self.title.as_str()
    }

    /// The note's title as an owned string.
    pub fn title_string(&self) -> (r: String)
        ensures
            r@ == self@.title,
    {
        self.title.clone()
    }

    /// Whether the note's title is exactly `title`.
    pub fn has_title(&self, title: &String) -> (r: bool)
        ensures
            r == (self@.title == title@),
    {
        self.title == *title
    }

    /// The note's Markdown body.
    pub fn body_markdown(&self) -> (r: &str)
        ensures
            r@ == self@.body_markdown,
    {
        self.body_markdown.as_str()
    }

    /// The task this note was quick-jotted onto, if any.
    pub fn task_id(&self) -> (r: Option<TaskId>)
        ensures
            r == self@.task_id,
    {
        self.task_id
    }

    /// Whether the note is pinned.
    pub fn pinned(&self) -> (r: bool)
        ensures
            r == self@.pinned,
    {
        self.pinned
    }

    /// Whether the note is archived.
    pub fn archived(&self) -> (r: bool)
        ensures
            r == self@.archived,
    {
        self.archived
    }

    /// When the note was created.
    pub fn created_at(&self) -> (r: Timestamp)
        ensures
            r == self@.created_at,
    {
        self.created_at
    }

    /// When the note was last updated.
    pub fn updated_at(&self) -> (r: Timestamp)
        ensures
            r == self@.updated_at,
    {
        self.updated_at
    }

    /// Replaces the title.
    pub fn set_title(&mut self, title: String)
        ensures
            final(self)@ == (NoteView { title: title@, ..old(self)@ }),
    {
        self.title = title;
    }

    /// Replaces the Markdown body.
    pub fn set_body(&mut self, body_markdown: String)
        ensures
            final(self)@ == (NoteView { body_markdown: body_markdown@, ..old(self)@ }),
    {
        self.body_markdown = body_markdown;
    }

    /// Sets the pinned flag.
    pub fn set_pinned(&mut self, pinned: bool)
        ensures
            final(self)@ == (NoteView { pinned, ..old(self)@ }),
    {
        self.pinned = pinned;
    }

    /// Sets the archived flag.
    pub fn set_archived(&mut self, archived: bool)
        ensures
            final(self)@ == (NoteView { archived, ..old(self)@ }),
    {
        self.archived = archived;
    }

    /// Records `now` as the last-updated time.
    pub fn touch(&mut self, now: Timestamp)
        ensures
            final(self)@ == (NoteView { updated_at: now, ..old(self)@ }),
    {
        self.updated_at = now;
    }
}

} // verus!
