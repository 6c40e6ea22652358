//! A verified migration engine for a per-user keyed store of encoded
//! documents.
//!
//! The store persists, for one user, a workspace structure (its first-level
//! views) and at most one encoded document per view identifier. Historically,
//! first-level views could exist without a document; the migration in
//! `runner` backfills a canonical default document for every such view,
//! inside a single write transaction that commits atomically, skipping views
//! whose default content could not be produced and never touching a document
//! that already exists. The lemmas in `laws` state and prove the engine's
//! guarantees: idempotence, non-destructiveness, backfill completeness and
//! per-view fault isolation.

use vstd::prelude::*;

pub mod laws;
pub mod runner;
pub mod store;

verus! {

/// The user and workspace one migration run applies to. Immutable input.
pub struct Session {
    pub user_id: i64,
    pub workspace_id: String,
}

/// The errors a migration can report.
///
/// A failed commit is the single fatal class: the run's caller sees it, and
/// nothing was made durable. A missing default content is a soft, per-view
/// failure: the runner skips that view and continues.
#[derive(Clone, Copy, Debug, PartialEq, Eq)]
pub enum MigrationError {
    /// Default content could not be produced for one view; that view is
    /// skipped and the pass goes on.
    ContentUnavailable,
    /// The final atomic commit failed; no staged write became durable.
    CommitFailed,
}

} // verus!
