//! Saved chat sessions.

use vstd::prelude::*;

use crate::diff::DiffEntry;
use crate::model::Message;

verus! {

/// A saved chat session.
pub struct Session {
    pub id: String,
    /// When it began, in seconds since the epoch.
    pub started_at: u64,
    /// When it was last saved.
    pub updated_at: u64,
    pub stage: String,
    pub title: String,
    /// The directory it was held in.
    pub cwd: String,
    pub history: Vec<Message>,
    /// The changes that were made, in their order.
    pub diffs: Vec<DiffEntry>,
}

} // verus!
