//! Ordered, run-once project migrations with a persistent history log and
//! baselines that subsume everything up to a chosen version.

use vstd::prelude::*;

pub mod baseline;
pub mod history;
pub mod loader;
pub mod state;
pub mod text;
pub mod timestamp;

use crate::timestamp::Timestamp;

verus! {

/// One discoverable migration: its identifier (the file name without its
/// extension), the version token that orders it, and the script's path.
#[derive(Debug, Clone)]
pub struct Migration {
    pub id: String,
    pub version: String,
    pub file_path: String,
}

/// The record that a migration finished successfully at `applied_at`.
#[derive(Debug, Clone)]
pub struct AppliedMigration {
    pub id: String,
    pub applied_at: Timestamp,
}

} // verus!
