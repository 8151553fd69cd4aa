//! Closed status sets and the task lifecycle.
use vstd::prelude::*;

verus! {

/// Lifecycle of an agent.
#[derive(Clone, Copy, Debug, PartialEq, Eq, Structural)]
pub enum AgentStatus {
    Created,
    Active,
    Paused,
    Retired,
}

/// Lifecycle of a task: `Pending -> Ready -> Running -> {Succeeded, Failed}`,
/// with `Cancelled` reachable from every non-terminal status.
#[derive(Clone, Copy, Debug, PartialEq, Eq, Structural)]
pub enum TaskStatus {
    Pending,
    Ready,
    Running,
    Succeeded,
    Failed,
    Cancelled,
}

pub open spec fn terminal(s: TaskStatus) -> bool {
    s == TaskStatus::Succeeded || s == TaskStatus::Failed || s == TaskStatus::Cancelled
}

/// The edges of the task state diagram.
pub open spec fn allowed(from: TaskStatus, to: TaskStatus) -> bool {
    match (from, to) {
        (TaskStatus::Pending, TaskStatus::Ready) => true,
        (TaskStatus::Ready, TaskStatus::Running) => true,
        (TaskStatus::Running, TaskStatus::Succeeded) => true,
        (TaskStatus::Running, TaskStatus::Failed) => true,
        (TaskStatus::Pending, TaskStatus::Cancelled) => true,
        (TaskStatus::Ready, TaskStatus::Cancelled) => true,
        (TaskStatus::Running, TaskStatus::Cancelled) => true,
        _ => false,
    }
}

impl TaskStatus {
    pub fn is_terminal(&self) -> (r: bool)
        ensures
            r == terminal(*self),
    {
        match self {
            TaskStatus::Succeeded | TaskStatus::Failed | TaskStatus::Cancelled => true,
            _ => false,
        }
    }

    /// Whether the state diagram has an edge from `self` to `to`.
    pub fn can_transition(&self, to: TaskStatus) -> (r: bool)
        ensures
            r == allowed(*self, to),
    {
        match (*self, to) {
            (TaskStatus::Pending, TaskStatus::Ready) => true,
            (TaskStatus::Ready, TaskStatus::Running) => true,
            (TaskStatus::Running, TaskStatus::Succeeded) => true,
            (TaskStatus::Running, TaskStatus::Failed) => true,
            (TaskStatus::Pending, TaskStatus::Cancelled) => true,
            (TaskStatus::Ready, TaskStatus::Cancelled) => true,
            (TaskStatus::Running, TaskStatus::Cancelled) => true,
            _ => false,
        }
    }
}

/// A terminal status has no outgoing edge, and every edge into a terminal
/// status leaves a non-terminal one.
pub proof fn lemma_terminal_is_final(from: TaskStatus, to: TaskStatus)
    ensures
        terminal(from) ==> !allowed(from, to),
        allowed(from, to) && terminal(to) ==> !terminal(from),
{
}

} // verus!
