# Jotphant

A Pomodoro task board with a Markdown notebook. Tasks move through
`Todo → In Progress ⇄ Paused → Done / Cancelled`; only one task is active at a time and
it alone owns the running timer. Completed focus pomos are the task's measured effort
and are credited to a pomo bank when the task is completed. Notes link to each other
with `[[Title]]` wiki-links and can be jotted onto a task.

## Layout

- `src/` — the library, verified with Verus: the domain rules, the in-memory store and
  the task-workflow service (with the invariant every operation keeps), wiki-link
  parsing, catalog lookups, the configuration file's schema and the storage codecs.
- `app/` — the desktop program around it: the egui window, the SQLite database file,
  the TOML configuration file and desktop notifications.
- `tests/` — tests of the library's public API.
