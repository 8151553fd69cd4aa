//! Relational integrity engine for an agent platform: typed records, the
//! task dependency graph, task lifecycle, cascading deletes and the retry
//! policy used for notification delivery.

pub mod graph;
pub mod status;
pub mod row;
pub mod entity;
pub mod error;
pub mod store;
pub mod retry;
