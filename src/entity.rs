//! The records of each entity family, their references and field checks.
//!
//! Structured documents (configuration, metadata, inputs, outputs, metrics)
//! are carried as opaque text; embeddings as opaque bytes.
use vstd::prelude::*;
use crate::row::Row;
use crate::status::{AgentStatus, TaskStatus};

verus! {

/// An agent that executes tasks.
#[derive(Debug, PartialEq, Eq)]
pub struct Agent {
    pub id: u128,
    pub name: String,
    pub kind: String,
    pub status: AgentStatus,
    pub config: String,
}

impl Row for Agent {
    open spec fn row_id(&self) -> u128 {
        self.id
    }

    open spec fn link_a(&self) -> u128 {
        self.id
    }

    open spec fn link_b(&self) -> u128 {
        self.id
    }

    fn id(&self) -> (r: u128) {
        self.id
    }

    fn links(&self) -> (r: (u128, u128)) {
        (self.id, self.id)
    }
}

/// A capability owned by exactly one agent.
#[derive(Debug, PartialEq, Eq)]
pub struct AgentCapability {
    pub id: u128,
    pub agent_id: u128,
    pub name: String,
    pub params: String,
}

impl Row for AgentCapability {
    open spec fn row_id(&self) -> u128 {
        self.id
    }

    open spec fn link_a(&self) -> u128 {
        self.agent_id
    }

    open spec fn link_b(&self) -> u128 {
        self.agent_id
    }

    fn id(&self) -> (r: u128) {
        self.id
    }

    fn links(&self) -> (r: (u128, u128)) {
        (self.agent_id, self.agent_id)
    }
}

/// A unit of work assigned to an agent.
#[derive(Debug, PartialEq, Eq)]
pub struct Task {
    pub id: u128,
    pub agent_id: u128,
    pub name: String,
    pub description: String,
    pub status: TaskStatus,
    pub priority: i32,
    pub input: String,
    pub output: String,
    pub metadata: String,
    pub created_at: u64,
    pub updated_at: u64,
    pub completed_at: Option<u64>,
}

impl Row for Task {
    open spec fn row_id(&self) -> u128 {
        self.id
    }

    open spec fn link_a(&self) -> u128 {
        self.agent_id
    }

    open spec fn link_b(&self) -> u128 {
        self.agent_id
    }

    fn id(&self) -> (r: u128) {
        self.id
    }

    fn links(&self) -> (r: (u128, u128)) {
        (self.agent_id, self.agent_id)
    }
}

/// A conversation between an agent and a user. The user is owned elsewhere.
#[derive(Debug, PartialEq, Eq)]
pub struct Conversation {
    pub id: u128,
    pub agent_id: u128,
    pub user_id: u128,
    pub title: String,
    pub status: String,
    pub metadata: String,
    pub created_at: u64,
    pub updated_at: u64,
}

impl Row for Conversation {
    open spec fn row_id(&self) -> u128 {
        self.id
    }

    open spec fn link_a(&self) -> u128 {
        self.agent_id
    }

    open spec fn link_b(&self) -> u128 {
        self.agent_id
    }

    fn id(&self) -> (r: u128) {
        self.id
    }

    fn links(&self) -> (r: (u128, u128)) {
        (self.agent_id, self.agent_id)
    }
}

/// One entry of a conversation's append-only log.
#[derive(Debug, PartialEq, Eq)]
pub struct Message {
    pub id: u128,
    pub conversation_id: u128,
    pub role: String,
    pub content: String,
    pub metadata: String,
    pub created_at: u64,
}

impl Row for Message {
    open spec fn row_id(&self) -> u128 {
        self.id
    }

    open spec fn link_a(&self) -> u128 {
        self.conversation_id
    }

    open spec fn link_b(&self) -> u128 {
        self.conversation_id
    }

    fn id(&self) -> (r: u128) {
        self.id
    }

    fn links(&self) -> (r: (u128, u128)) {
        (self.conversation_id, self.conversation_id)
    }
}

/// A long-term memory of an agent.
#[derive(Debug, PartialEq, Eq)]
pub struct Memory {
    pub id: u128,
    pub agent_id: u128,
    pub kind: String,
    pub content: String,
    pub embedding: Option<Vec<u8>>,
    pub metadata: String,
    pub created_at: u64,
    pub last_accessed: Option<u64>,
}

impl Row for Memory {
    open spec fn row_id(&self) -> u128 {
        self.id
    }

    open spec fn link_a(&self) -> u128 {
        self.agent_id
    }

    open spec fn link_b(&self) -> u128 {
        self.agent_id
    }

    fn id(&self) -> (r: u128) {
        self.id
    }

    fn links(&self) -> (r: (u128, u128)) {
        (self.agent_id, self.agent_id)
    }
}

/// A top-level container of knowledge items.
#[derive(Debug, PartialEq, Eq)]
pub struct KnowledgeBase {
    pub id: u128,
    pub name: String,
    pub kind: String,
    pub config: String,
}

impl Row for KnowledgeBase {
    open spec fn row_id(&self) -> u128 {
        self.id
    }

    open spec fn link_a(&self) -> u128 {
        self.id
    }

    open spec fn link_b(&self) -> u128 {
        self.id
    }

    fn id(&self) -> (r: u128) {
        self.id
    }

    fn links(&self) -> (r: (u128, u128)) {
        (self.id, self.id)
    }
}

/// One item of a knowledge base.
#[derive(Debug, PartialEq, Eq)]
pub struct KnowledgeItem {
    pub id: u128,
    pub knowledge_base_id: u128,
    pub kind: String,
    pub content: String,
    pub embedding: Option<Vec<u8>>,
    pub metadata: String,
}

impl Row for KnowledgeItem {
    open spec fn row_id(&self) -> u128 {
        self.id
    }

    open spec fn link_a(&self) -> u128 {
        self.knowledge_base_id
    }

    open spec fn link_b(&self) -> u128 {
        self.knowledge_base_id
    }

    fn id(&self) -> (r: u128) {
        self.id
    }

    fn links(&self) -> (r: (u128, u128)) {
        (self.knowledge_base_id, self.knowledge_base_id)
    }
}

/// A learning model and its training record.
#[derive(Debug, PartialEq, Eq)]
pub struct LearningModel {
    pub id: u128,
    pub name: String,
    pub kind: String,
    pub version: String,
    pub config: String,
    pub metrics: String,
    pub last_trained_at: Option<u64>,
}

impl Row for LearningModel {
    open spec fn row_id(&self) -> u128 {
        self.id
    }

    open spec fn link_a(&self) -> u128 {
        self.id
    }

    open spec fn link_b(&self) -> u128 {
        self.id
    }

    fn id(&self) -> (r: u128) {
        self.id
    }

    fn links(&self) -> (r: (u128, u128)) {
        (self.id, self.id)
    }
}

/// One training example of a learning model.
#[derive(Debug, PartialEq, Eq)]
pub struct TrainingExample {
    pub id: u128,
    pub model_id: u128,
    pub input: String,
    pub output: String,
    pub metadata: String,
}

impl Row for TrainingExample {
    open spec fn row_id(&self) -> u128 {
        self.id
    }

    open spec fn link_a(&self) -> u128 {
        self.model_id
    }

    open spec fn link_b(&self) -> u128 {
        self.model_id
    }

    fn id(&self) -> (r: u128) {
        self.id
    }

    fn links(&self) -> (r: (u128, u128)) {
        (self.model_id, self.model_id)
    }
}

} // verus!

verus! {

/// A user known to the platform. Users are owned by the authentication
/// side; conversations only refer to them.
#[derive(Clone, Copy, Debug, PartialEq, Eq, Structural)]
pub struct User {
    pub id: u128,
}

impl Row for User {
    open spec fn row_id(&self) -> u128 {
        self.id
    }

    open spec fn link_a(&self) -> u128 {
        self.id
    }

    open spec fn link_b(&self) -> u128 {
        self.id
    }

    fn id(&self) -> (r: u128) {
        self.id
    }

    fn links(&self) -> (r: (u128, u128)) {
        (self.id, self.id)
    }
}

} // verus!
