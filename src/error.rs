//! Errors of the store's operations.
use vstd::prelude::*;
use crate::status::TaskStatus;

verus! {

/// A field of a record, as named in errors.
#[derive(Clone, Copy, Debug, PartialEq, Eq, Structural)]
pub enum Field {
    Name,
    Priority,
    Role,
    Input,
    Output,
    AgentId,
    UserId,
    ConversationId,
    KnowledgeBaseId,
    ModelId,
}

/// Why a field was refused.
#[derive(Clone, Copy, Debug, PartialEq, Eq, Structural)]
pub enum Reason {
    Empty,
    Negative,
}

#[derive(Clone, Copy, Debug, PartialEq, Eq, Structural)]
pub enum StoreError {
    /// A field of the record is missing or out of range.
    Validation { field: Field, reason: Reason },
    /// A reference names no row of the referenced table.
    DanglingReference { field: Field, target_id: u128 },
    /// The row is still referenced by rows that do not cascade.
    ReferentialConflict { id: u128 },
    /// A row with this id already exists in the table.
    DuplicateId { id: u128 },
    /// No row with this id exists.
    NotFound { id: u128 },
    /// The dependency would close a cycle.
    CycleDetected,
    /// A task cannot depend on itself.
    SelfDependency,
    /// A dependency names a task that does not exist.
    UnknownTask { id: u128 },
    /// The task state diagram has no such edge.
    IllegalTransition { from: TaskStatus, to: TaskStatus },
}

} // verus!
