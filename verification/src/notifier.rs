//! Desktop notifications.
//!
//! The trait receives already-localized text: deciding *what* to say (and in which
//! language) is the UI's job. Kept behind a trait so the UI stays decoupled from the
//! platform; the composition root injects the concrete implementation.

use vstd::prelude::*;

verus! {

/// Shows notifications to the user.
pub trait Notifier {
    /// Shows a notification with the given summary and body.
    fn notify(&self, summary: &str, body: &str);
}

} // verus!
