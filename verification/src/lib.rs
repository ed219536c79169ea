//! A task tracker core with a reversible operation log.
//!
//! Tasks and task/category assignments live in a relational [`store::Store`],
//! together with an append-only ledger of encoded inverse operations.  Every
//! mutating operation records the action that would undo it; `undo` and `redo`
//! replay those records while keeping the entity state and the ledger
//! mutually consistent.

pub mod action_repository;
pub mod category_repository;
pub mod date;
pub mod laws;
pub mod models;
pub mod repositories;
pub mod seqs;
pub mod store;
pub mod strings;
pub mod task_repository;
pub mod undo_laws;
pub mod utils;

use vstd::prelude::*;

verus! {

/// The typed errors that store and ledger operations can return.
///
/// Every variant carries the identifiers needed to report the failure
/// precisely.
#[derive(Debug, Clone, PartialEq, Eq)]
pub enum Error {
    /// No task with this id exists.
    TaskNotFound { id: i64 },
    /// A task with this id already exists (only possible when restoring a
    /// deleted task under its original id).
    DuplicateTask { id: i64 },
    /// The (task id, category) pair is not assigned.
    CategoryNotFound { task_id: i64, category: String },
    /// The (task id, category) pair is already assigned.
    DuplicateCategory { task_id: i64, category: String },
    /// An update supplied zero fields.
    NoChange,
    /// The ledger holds no unrestored record to undo.
    NothingToUndo,
    /// The ledger holds no restored record to redo.
    NothingToRedo,
    /// A ledger payload is malformed.
    Corruption,
}

} // verus!
