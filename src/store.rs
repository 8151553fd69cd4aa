//! The store: every table, the invariants that hold between them, and the
//! operations that keep those invariants.
//!
//! Every operation checks all of its preconditions before it writes, so a
//! refused operation leaves the store as it was.
use vstd::prelude::*;
use crate::entity::{
    Agent, AgentCapability, Conversation, KnowledgeBase, KnowledgeItem, LearningModel, Memory, Message, Task,
    TrainingExample, User,
};
use crate::error::{Field, Reason, StoreError};
use crate::graph::{acyclic, reachable, reaches, TaskDependency};
use crate::row::{
    collect_linked, find_row, has_id, lemma_has_id_push, ids_linked_to, lemma_links_without, lemma_without_member, lemma_without_unique,
    retain_unlinked, without_links, Row, lemma_links_push_child, lemma_links_push_parent, lemma_unique_push, links_into, unique_ids,
};
use crate::status::{allowed, terminal, TaskStatus};

verus! {

/// The tables of the store.
#[derive(Clone, Copy, Debug, PartialEq, Eq, Structural)]
pub enum Table {
    Users,
    Agents,
    Capabilities,
    Tasks,
    Dependencies,
    Conversations,
    Messages,
    Memories,
    KnowledgeBases,
    KnowledgeItems,
    Models,
    TrainingExamples,
}

pub struct Store {
    pub users: Vec<User>,
    pub agents: Vec<Agent>,
    pub capabilities: Vec<AgentCapability>,
    pub tasks: Vec<Task>,
    pub dependencies: Vec<TaskDependency>,
    pub conversations: Vec<Conversation>,
    pub messages: Vec<Message>,
    pub memories: Vec<Memory>,
    pub knowledge_bases: Vec<KnowledgeBase>,
    pub knowledge_items: Vec<KnowledgeItem>,
    pub models: Vec<LearningModel>,
    pub training_examples: Vec<TrainingExample>,
}

/// Every conversation names a known user.
pub open spec fn users_known(cs: Seq<Conversation>, us: Seq<User>) -> bool {
    forall|i: int| 0 <= i < cs.len() ==> has_id(us, #[trigger] cs[i].user_id)
}

/// A task carries a completion time exactly when its status is terminal.
pub open spec fn completion_stamped(ts: Seq<Task>) -> bool {
    forall|i: int| 0 <= i < ts.len() ==> (#[trigger] ts[i].completed_at is Some <==> terminal(ts[i].status))
}

/// A task that may run: it waits, and everything it depends on succeeded.
pub open spec fn runnable(s: Store, t: Task) -> bool {
    &&& (t.status == TaskStatus::Pending || t.status == TaskStatus::Ready)
    &&& forall|j: int|
        0 <= j < s.dependencies@.len() && #[trigger] s.dependencies@[j].task_id == t.id ==> exists|k: int|
            0 <= k < s.tasks@.len() && #[trigger] s.tasks@[k].id == s.dependencies@[j].depends_on_task_id
                && s.tasks@[k].status == TaskStatus::Succeeded
}

/// The task after a transition to `to` at time `now`: the update time never
/// goes back, and a terminal status stamps the completion time.
pub open spec fn stepped(t: Task, to: TaskStatus, now: u64) -> Task {
    Task {
        status: to,
        updated_at: if now > t.updated_at { now } else { t.updated_at },
        completed_at: if terminal(to) { Some(now) } else { t.completed_at },
        ..t
    }
}

impl Store {
    pub open spec fn wf(&self) -> bool {
        &&& unique_ids(self.users@)
        &&& unique_ids(self.agents@)
        &&& unique_ids(self.capabilities@)
        &&& unique_ids(self.tasks@)
        &&& unique_ids(self.dependencies@)
        &&& unique_ids(self.conversations@)
        &&& unique_ids(self.messages@)
        &&& unique_ids(self.memories@)
        &&& unique_ids(self.knowledge_bases@)
        &&& unique_ids(self.knowledge_items@)
        &&& unique_ids(self.models@)
        &&& unique_ids(self.training_examples@)
        &&& links_into(self.capabilities@, self.agents@)
        &&& links_into(self.tasks@, self.agents@)
        &&& links_into(self.dependencies@, self.tasks@)
        &&& links_into(self.conversations@, self.agents@)
        &&& users_known(self.conversations@, self.users@)
        &&& links_into(self.messages@, self.conversations@)
        &&& links_into(self.memories@, self.agents@)
        &&& links_into(self.knowledge_items@, self.knowledge_bases@)
        &&& links_into(self.training_examples@, self.models@)
        &&& acyclic(self.dependencies@)
        &&& completion_stamped(self.tasks@)
    }

    /// Every table but `t` holds the same rows in both stores.
    pub open spec fn same_except(&self, other: &Store, t: Table) -> bool {
        self.same_except_two(other, t, t)
    }

    /// Every table but `t` and `u` holds the same rows in both stores.
    pub open spec fn same_except_two(&self, other: &Store, t: Table, u: Table) -> bool {
        &&& (t != Table::Users && u != Table::Users ==> self.users@ == other.users@)
        &&& (t != Table::Agents && u != Table::Agents ==> self.agents@ == other.agents@)
        &&& (t != Table::Capabilities && u != Table::Capabilities ==> self.capabilities@ == other.capabilities@)
        &&& (t != Table::Tasks && u != Table::Tasks ==> self.tasks@ == other.tasks@)
        &&& (t != Table::Dependencies && u != Table::Dependencies ==> self.dependencies@ == other.dependencies@)
        &&& (t != Table::Conversations && u != Table::Conversations ==> self.conversations@ == other.conversations@)
        &&& (t != Table::Messages && u != Table::Messages ==> self.messages@ == other.messages@)
        &&& (t != Table::Memories && u != Table::Memories ==> self.memories@ == other.memories@)
        &&& (t != Table::KnowledgeBases && u != Table::KnowledgeBases ==> self.knowledge_bases@ == other.knowledge_bases@)
        &&& (t != Table::KnowledgeItems && u != Table::KnowledgeItems ==> self.knowledge_items@ == other.knowledge_items@)
        &&& (t != Table::Models && u != Table::Models ==> self.models@ == other.models@)
        &&& (t != Table::TrainingExamples && u != Table::TrainingExamples ==> self.training_examples@ == other.training_examples@)
    }

    /// Both stores hold the same rows in every table.
    pub open spec fn same(&self, other: &Store) -> bool {
        self.same_except(other, Table::Users) && self.users@ == other.users@
    }

    /// An empty store.
    pub fn new() -> (s: Store)
        ensures
            s.wf(),
            s.users@.len() == 0 && s.agents@.len() == 0 && s.capabilities@.len() == 0 && s.tasks@.len() == 0,
            s.dependencies@.len() == 0 && s.conversations@.len() == 0 && s.messages@.len() == 0,
            s.memories@.len() == 0 && s.knowledge_bases@.len() == 0 && s.knowledge_items@.len() == 0,
            s.models@.len() == 0 && s.training_examples@.len() == 0,
    {
        Store {
            users: Vec::new(),
            agents: Vec::new(),
            capabilities: Vec::new(),
            tasks: Vec::new(),
            dependencies: Vec::new(),
            conversations: Vec::new(),
            messages: Vec::new(),
            memories: Vec::new(),
            knowledge_bases: Vec::new(),
            knowledge_items: Vec::new(),
            models: Vec::new(),
            training_examples: Vec::new(),
        }
    }

    /// Adds an agent.
    pub fn create_agent(&mut self, agent: Agent) -> (r: Result<(), StoreError>)
        requires
            old(self).wf(),
        ensures
            final(self).wf(),
            agent.name@.len() == 0 ==> r == Err::<(), StoreError>(
                StoreError::Validation { field: Field::Name, reason: Reason::Empty },
            ),
            agent.name@.len() > 0 && has_id(old(self).agents@, agent.id) ==> r == Err::<(), StoreError>(
                StoreError::DuplicateId { id: agent.id },
            ),
            r is Err ==> final(self).same(old(self)),
            r is Ok <==> agent.name@.len() > 0 && !has_id(old(self).agents@, agent.id),
            r is Ok ==> final(self).agents@ == old(self).agents@.push(agent) && final(self).same_except(
                old(self),
                Table::Agents,
            ),
    {
        if agent.name.as_str().is_empty() {
            return Err(StoreError::Validation { field: Field::Name, reason: Reason::Empty });
        }
        if find_row(&self.agents, agent.id).is_some() {
            return Err(StoreError::DuplicateId { id: agent.id });
        }
        proof {
            lemma_unique_push(self.agents@, agent);
            lemma_links_push_parent(self.capabilities@, self.agents@, agent);
            lemma_links_push_parent(self.tasks@, self.agents@, agent);
            lemma_links_push_parent(self.conversations@, self.agents@, agent);
            lemma_links_push_parent(self.memories@, self.agents@, agent);
        }
        self.agents.push(agent);
        Ok(())
    }

    /// Adds a task for an agent, in status `Pending`, stamped with `now`.
    pub fn create_task(
        &mut self,
        id: u128,
        agent_id: u128,
        name: String,
        description: String,
        priority: i32,
        input: String,
        metadata: String,
        now: u64,
    ) -> (r: Result<(), StoreError>)
        requires
            old(self).wf(),
        ensures
            final(self).wf(),
            name@.len() == 0 ==> r == Err::<(), StoreError>(
                StoreError::Validation { field: Field::Name, reason: Reason::Empty },
            ),
            name@.len() > 0 && priority < 0 ==> r == Err::<(), StoreError>(
                StoreError::Validation { field: Field::Priority, reason: Reason::Negative },
            ),
            name@.len() > 0 && priority >= 0 && !has_id(old(self).agents@, agent_id) ==> r == Err::<
                (),
                StoreError,
            >(StoreError::DanglingReference { field: Field::AgentId, target_id: agent_id }),
            name@.len() > 0 && priority >= 0 && has_id(old(self).agents@, agent_id) && has_id(
                old(self).tasks@,
                id,
            ) ==> r == Err::<(), StoreError>(StoreError::DuplicateId { id }),
            r is Err ==> final(self).same(old(self)),
            r is Ok <==> name@.len() > 0 && priority >= 0 && has_id(old(self).agents@, agent_id) && !has_id(
                old(self).tasks@,
                id,
            ),
            r is Ok ==> final(self).same_except(old(self), Table::Tasks) && final(self).tasks@ == old(
                self,
            ).tasks@.push(
                (Task {
                    id,
                    agent_id,
                    name,
                    description,
                    status: TaskStatus::Pending,
                    priority,
                    input,
                    output: final(self).tasks@.last().output,
                    metadata,
                    created_at: now,
                    updated_at: now,
                    completed_at: None,
                }),
            ) && final(self).tasks@.last().output@.len() == 0,
    {
        if name.as_str().is_empty() {
            return Err(StoreError::Validation { field: Field::Name, reason: Reason::Empty });
        }
        if priority < 0 {
            return Err(StoreError::Validation { field: Field::Priority, reason: Reason::Negative });
        }
        if find_row(&self.agents, agent_id).is_none() {
            return Err(StoreError::DanglingReference { field: Field::AgentId, target_id: agent_id });
        }
        if find_row(&self.tasks, id).is_some() {
            return Err(StoreError::DuplicateId { id });
        }
        let task = Task {
            id,
            agent_id,
            name,
            description,
            status: TaskStatus::Pending,
            priority,
            input,
            output: String::new(),
            metadata,
            created_at: now,
            updated_at: now,
            completed_at: None,
        };
        proof {
            lemma_unique_push(self.tasks@, task);
            lemma_links_push_child(self.tasks@, self.agents@, task);
            lemma_links_push_parent(self.dependencies@, self.tasks@, task);
            assert forall|i: int| 0 <= i < self.tasks@.push(task).len() implies (
            #[trigger] self.tasks@.push(task)[i].completed_at is Some <==> terminal(self.tasks@.push(task)[i].status)) by {
                if i < self.tasks@.len() {
                    assert(self.tasks@.push(task)[i] == self.tasks@[i]);
                }
            }
        }
        self.tasks.push(task);
        Ok(())
    }

    /// Records that task `task_id` depends on task `depends_on`.
    pub fn add_dependency(&mut self, id: u128, task_id: u128, depends_on: u128) -> (r: Result<(), StoreError>)
        requires
            old(self).wf(),
        ensures
            final(self).wf(),
            task_id == depends_on ==> r == Err::<(), StoreError>(StoreError::SelfDependency),
            task_id != depends_on && !has_id(old(self).tasks@, task_id) ==> r == Err::<(), StoreError>(
                StoreError::UnknownTask { id: task_id },
            ),
            task_id != depends_on && has_id(old(self).tasks@, task_id) && !has_id(old(self).tasks@, depends_on)
                ==> r == Err::<(), StoreError>(StoreError::UnknownTask { id: depends_on }),
            task_id != depends_on && has_id(old(self).tasks@, task_id) && has_id(old(self).tasks@, depends_on)
                && has_id(old(self).dependencies@, id) ==> r == Err::<(), StoreError>(
                StoreError::DuplicateId { id },
            ),
            task_id != depends_on && has_id(old(self).tasks@, task_id) && has_id(old(self).tasks@, depends_on)
                && !has_id(old(self).dependencies@, id) && reachable(old(self).dependencies@, depends_on, task_id)
                ==> r == Err::<(), StoreError>(StoreError::CycleDetected),
            r is Err ==> final(self).same(old(self)),
            r is Ok <==> task_id != depends_on && has_id(old(self).tasks@, task_id) && has_id(
                old(self).tasks@,
                depends_on,
            ) && !has_id(old(self).dependencies@, id) && !reachable(old(self).dependencies@, depends_on, task_id),
            r is Ok ==> final(self).same_except(old(self), Table::Dependencies) && final(self).dependencies@ == old(
                self,
            ).dependencies@.push(TaskDependency { id, task_id, depends_on_task_id: depends_on }),
    {
        if task_id == depends_on {
            return Err(StoreError::SelfDependency);
        }
        if find_row(&self.tasks, task_id).is_none() {
            return Err(StoreError::UnknownTask { id: task_id });
        }
        if find_row(&self.tasks, depends_on).is_none() {
            return Err(StoreError::UnknownTask { id: depends_on });
        }
        if find_row(&self.dependencies, id).is_some() {
            return Err(StoreError::DuplicateId { id });
        }
        if reaches(&self.dependencies, depends_on, task_id) {
            return Err(StoreError::CycleDetected);
        }
        let dep = TaskDependency { id, task_id, depends_on_task_id: depends_on };
        proof {
            crate::graph::lemma_push_acyclic(self.dependencies@, dep);
            lemma_unique_push(self.dependencies@, dep);
            lemma_links_push_child(self.dependencies@, self.tasks@, dep);
        }
        self.dependencies.push(dep);
        Ok(())
    }
}

} // verus!

verus! {

impl Store {
    /// Whether every task that `task_id` depends on has succeeded.
    fn dependencies_met(&self, task_id: u128) -> (r: bool)
        requires
            self.wf(),
        ensures
            r == forall|j: int|
                0 <= j < self.dependencies@.len() && #[trigger] self.dependencies@[j].task_id == task_id
                    ==> exists|k: int|
                    0 <= k < self.tasks@.len() && #[trigger] self.tasks@[k].id
                        == self.dependencies@[j].depends_on_task_id && self.tasks@[k].status
                        == TaskStatus::Succeeded,
    {
        let mut j: usize = 0;
        while j < self.dependencies.len()
            invariant
                self.wf(),
                j <= self.dependencies@.len(),
                forall|j2: int|
                    0 <= j2 < j && #[trigger] self.dependencies@[j2].task_id == task_id ==> exists|k: int|
                        0 <= k < self.tasks@.len() && #[trigger] self.tasks@[k].id
                            == self.dependencies@[j2].depends_on_task_id && self.tasks@[k].status
                            == TaskStatus::Succeeded,
            decreases self.dependencies@.len() - j,
        {
            let d = self.dependencies[j].depends_on_task_id;
            if self.dependencies[j].task_id == task_id {
                match find_row(&self.tasks, d) {
                    Some(k) => {
                        if self.tasks[k].status != TaskStatus::Succeeded {
                            proof {
                                assert forall|k2: int|
                                    0 <= k2 < self.tasks@.len() && #[trigger] self.tasks@[k2].id == d implies self.tasks@[k2].status
                                    != TaskStatus::Succeeded by {
                                    assert(self.tasks@[k2].row_id() == self.tasks@[k as int].row_id());
                                }
                            }
                            return false;
                        }
                    },
                    None => {
                        proof {
                            assert(has_id(self.tasks@, self.dependencies@[j as int].link_a()));
                            assert(has_id(self.tasks@, self.dependencies@[j as int].link_b()));
                        }
                        return false;
                    },
                }
            }
            j += 1;
        }
        true
    }

    /// The ids of the tasks of `agent_id` that may run now: waiting, with
    /// every dependency succeeded. Computed afresh from the current rows.
    pub fn ready_set(&self, agent_id: u128) -> (r: Vec<u128>)
        requires
            self.wf(),
        ensures
            forall|x: u128|
                r@.contains(x) <==> exists|i: int|
                    0 <= i < self.tasks@.len() && #[trigger] self.tasks@[i].id == x && self.tasks@[i].agent_id
                        == agent_id && runnable(*self, self.tasks@[i]),
    {
        let mut out: Vec<u128> = Vec::new();
        let mut i: usize = 0;
        while i < self.tasks.len()
            invariant
                self.wf(),
                i <= self.tasks@.len(),
                forall|x: u128|
                    out@.contains(x) <==> exists|i2: int|
                        0 <= i2 < i && #[trigger] self.tasks@[i2].id == x && self.tasks@[i2].agent_id == agent_id
                            && runnable(*self, self.tasks@[i2]),
            decreases self.tasks@.len() - i,
        {
            let id = self.tasks[i].id;
            let waiting = self.tasks[i].status == TaskStatus::Pending || self.tasks[i].status == TaskStatus::Ready;
            let take = self.tasks[i].agent_id == agent_id && waiting && self.dependencies_met(id);
            let ghost prev = out@;
            if take {
                out.push(id);
            }
            proof {
                assert forall|x: u128|
                    out@.contains(x) <==> exists|i2: int|
                        0 <= i2 < i + 1 && #[trigger] self.tasks@[i2].id == x && self.tasks@[i2].agent_id == agent_id
                            && runnable(*self, self.tasks@[i2]) by {
                    if take && x == id {
                        assert(out@[out@.len() - 1] == x);
                        assert(runnable(*self, self.tasks@[i as int]));
                    }
                    if out@.contains(x) && !(take && x == id) {
                        let j = choose|j: int| 0 <= j < out@.len() && out@[j] == x;
                        assert(prev[j] == x);
                        assert(prev.contains(x));
                    }
                    if exists|i2: int|
                        0 <= i2 < i + 1 && #[trigger] self.tasks@[i2].id == x && self.tasks@[i2].agent_id == agent_id
                            && runnable(*self, self.tasks@[i2]) {
                        let i2 = choose|i2: int|
                            0 <= i2 < i + 1 && #[trigger] self.tasks@[i2].id == x && self.tasks@[i2].agent_id
                                == agent_id && runnable(*self, self.tasks@[i2]);
                        if i2 < i {
                            assert(prev.contains(x));
                            let j = choose|j: int| 0 <= j < prev.len() && prev[j] == x;
                            assert(out@[j] == x);
                        } else {
                            assert(take);
                            assert(out@[out@.len() - 1] == x);
                        }
                    }
                }
            }
            i += 1;
        }
        out
    }

    /// Moves task `task_id` to status `to` at time `now`, along an edge of the
    /// task state diagram.
    pub fn transition(&mut self, task_id: u128, to: TaskStatus, now: u64) -> (r: Result<(), StoreError>)
        requires
            old(self).wf(),
        ensures
            final(self).wf(),
            !has_id(old(self).tasks@, task_id) ==> r == Err::<(), StoreError>(StoreError::UnknownTask { id: task_id }),
            forall|i: int|
                0 <= i < old(self).tasks@.len() && #[trigger] old(self).tasks@[i].id == task_id ==> {
                    &&& !allowed(old(self).tasks@[i].status, to) ==> r == Err::<(), StoreError>(
                        StoreError::IllegalTransition { from: old(self).tasks@[i].status, to },
                    )
                    &&& allowed(old(self).tasks@[i].status, to) ==> r is Ok && final(self).tasks@ == old(
                        self,
                    ).tasks@.update(i, stepped(old(self).tasks@[i], to, now))
                },
            r is Err ==> final(self).same(old(self)),
            r is Ok ==> final(self).same_except(old(self), Table::Tasks),
    {
        let i = match find_row(&self.tasks, task_id) {
            Some(i) => i,
            None => {
                proof {
                    assert forall|i2: int| 0 <= i2 < self.tasks@.len() implies #[trigger] self.tasks@[i2].id != task_id by {
                        assert(self.tasks@[i2].row_id() == self.tasks@[i2].id);
                    }
                }
                return Err(StoreError::UnknownTask { id: task_id });
            },
        };
        let from = self.tasks[i].status;
        if !from.can_transition(to) {
            proof {
                assert forall|i2: int|
                    0 <= i2 < self.tasks@.len() && #[trigger] self.tasks@[i2].id == task_id implies i2 == i by {
                    assert(self.tasks@[i2].row_id() == self.tasks@[i as int].row_id());
                }
            }
            return Err(StoreError::IllegalTransition { from, to });
        }
        let ghost s0 = self.tasks@;
        let mut t = self.tasks.remove(i);
        t.status = to;
        if now > t.updated_at {
            t.updated_at = now;
        }
        if to.is_terminal() {
            t.completed_at = Some(now);
        }
        self.tasks.insert(i, t);
        proof {
            assert(self.tasks@ =~= s0.update(i as int, stepped(s0[i as int], to, now)));
            assert forall|i2: int| 0 <= i2 < s0.len() && #[trigger] s0[i2].id == task_id implies i2 == i by {
                assert(s0[i2].row_id() == s0[i as int].row_id());
            }
            crate::status::lemma_terminal_is_final(from, to);
            crate::row::lemma_same_keys(s0, self.tasks@);
            crate::row::lemma_links_keys(self.dependencies@, s0, self.tasks@);
            assert forall|k: int| 0 <= k < self.tasks@.len() implies has_id(self.agents@, #[trigger] self.tasks@[k].link_a())
                && has_id(self.agents@, self.tasks@[k].link_b()) by {
                assert(self.tasks@[k].link_a() == s0[k].link_a());
            }
            assert forall|k: int| 0 <= k < self.tasks@.len() implies (#[trigger] self.tasks@[k].completed_at is Some
                <==> terminal(self.tasks@[k].status)) by {
                if k != i {
                    assert(self.tasks@[k] == s0[k]);
                }
            }
        }
        Ok(())
    }
}

} // verus!

verus! {

impl Store {
    /// Deletes an agent with everything that hangs off it: capabilities,
    /// tasks and every dependency that touches one of them, conversations
    /// and their messages, and memories. Nothing else changes.
    ///
    /// Conversations cascade from their agent, as every agent-owned family
    /// does; their link to a user does not cascade (see `remove_user`).
    pub fn delete_agent(&mut self, id: u128) -> (r: Result<(), StoreError>)
        requires
            old(self).wf(),
        ensures
            final(self).wf(),
            r is Ok <==> has_id(old(self).agents@, id),
            r is Err ==> r == Err::<(), StoreError>(StoreError::NotFound { id }) && final(self).same(old(self)),
            r is Ok ==> {
                &&& final(self).agents@ == without_links(old(self).agents@, set![id])
                &&& final(self).capabilities@ == without_links(old(self).capabilities@, set![id])
                &&& final(self).tasks@ == without_links(old(self).tasks@, set![id])
                &&& final(self).dependencies@ == without_links(
                    old(self).dependencies@,
                    ids_linked_to(old(self).tasks@, id),
                )
                &&& final(self).conversations@ == without_links(old(self).conversations@, set![id])
                &&& final(self).messages@ == without_links(
                    old(self).messages@,
                    ids_linked_to(old(self).conversations@, id),
                )
                &&& final(self).memories@ == without_links(old(self).memories@, set![id])
                &&& final(self).users@ == old(self).users@
                &&& final(self).knowledge_bases@ == old(self).knowledge_bases@
                &&& final(self).knowledge_items@ == old(self).knowledge_items@
                &&& final(self).models@ == old(self).models@
                &&& final(self).training_examples@ == old(self).training_examples@
            },
    {
        if find_row(&self.agents, id).is_none() {
            return Err(StoreError::NotFound { id });
        }
        let ghost s0 = *self;
        let task_ids = collect_linked(&self.tasks, id);
        let conversation_ids = collect_linked(&self.conversations, id);
        let mut one: Vec<u128> = Vec::new();
        one.push(id);
        proof {
            assert forall|x: u128| one@.to_set().contains(x) <==> x == id by {
                assert(one@[0] == id);
                if one@.contains(x) {
                    let j = choose|j: int| 0 <= j < one@.len() && one@[j] == x;
                    assert(j == 0);
                }
            }
            assert(one@.to_set() =~= set![id]);
        }
        retain_unlinked(&mut self.dependencies, &task_ids);
        retain_unlinked(&mut self.messages, &conversation_ids);
        retain_unlinked(&mut self.tasks, &one);
        retain_unlinked(&mut self.capabilities, &one);
        retain_unlinked(&mut self.conversations, &one);
        retain_unlinked(&mut self.memories, &one);
        retain_unlinked(&mut self.agents, &one);
        proof {
            let g = set![id];
            let gt = ids_linked_to(s0.tasks@, id);
            let gc = ids_linked_to(s0.conversations@, id);
            lemma_without_unique(s0.agents@, g);
            lemma_without_unique(s0.capabilities@, g);
            lemma_without_unique(s0.tasks@, g);
            lemma_without_unique(s0.dependencies@, gt);
            lemma_without_unique(s0.conversations@, g);
            lemma_without_unique(s0.messages@, gc);
            lemma_without_unique(s0.memories@, g);
            lemma_links_without(s0.capabilities@, s0.agents@, g, g);
            lemma_links_without(s0.tasks@, s0.agents@, g, g);
            lemma_links_without(s0.conversations@, s0.agents@, g, g);
            lemma_links_without(s0.memories@, s0.agents@, g, g);
            assert forall|i: int|
                0 <= i < s0.tasks@.len() && (g.contains(#[trigger] s0.tasks@[i].link_a()) || g.contains(
                    s0.tasks@[i].link_b(),
                )) implies gt.contains(s0.tasks@[i].row_id()) by {
                assert(s0.tasks@[i].row_id() == s0.tasks@[i].row_id());
            }
            lemma_links_without(s0.dependencies@, s0.tasks@, gt, g);
            assert forall|i: int|
                0 <= i < s0.conversations@.len() && (g.contains(#[trigger] s0.conversations@[i].link_a())
                    || g.contains(s0.conversations@[i].link_b())) implies gc.contains(
                s0.conversations@[i].row_id(),
            ) by {
                assert(s0.conversations@[i].row_id() == s0.conversations@[i].row_id());
            }
            lemma_links_without(s0.messages@, s0.conversations@, gc, g);
            crate::graph::lemma_acyclic_filter(
                s0.dependencies@,
                |r: TaskDependency| !gt.contains(r.link_a()) && !gt.contains(r.link_b()),
            );
            assert forall|k: int| 0 <= k < self.tasks@.len() implies (#[trigger] self.tasks@[k].completed_at is Some
                <==> terminal(self.tasks@[k].status)) by {
                lemma_without_member(s0.tasks@, g, k);
            }
            assert forall|k: int| 0 <= k < self.conversations@.len() implies has_id(
                self.users@,
                #[trigger] self.conversations@[k].user_id,
            ) by {
                lemma_without_member(s0.conversations@, g, k);
            }
        }
        Ok(())
    }
}

} // verus!

verus! {

impl Store {
    /// Registers a user that conversations may refer to.
    pub fn register_user(&mut self, user: User) -> (r: Result<(), StoreError>)
        requires
            old(self).wf(),
        ensures
            final(self).wf(),
            has_id(old(self).users@, user.id) ==> r == Err::<(), StoreError>(StoreError::DuplicateId { id: user.id }),
            r is Err ==> final(self).same(old(self)),
            r is Ok <==> !has_id(old(self).users@, user.id),
            r is Ok ==> final(self).users@ == old(self).users@.push(user) && final(self).same_except(old(self), Table::Users),
    {
        if find_row(&self.users, user.id).is_some() {
            return Err(StoreError::DuplicateId { id: user.id });
        }
        proof {
            lemma_unique_push(self.users@, user);
            assert forall|k: int| 0 <= k < self.conversations@.len() implies has_id(
                self.users@.push(user),
                #[trigger] self.conversations@[k].user_id,
            ) by {
                lemma_has_id_push(self.users@, user, self.conversations@[k].user_id);
            }
        }
        self.users.push(user);
        Ok(())
    }

    /// Gives an agent a capability.
    pub fn add_capability(&mut self, cap: AgentCapability) -> (r: Result<(), StoreError>)
        requires
            old(self).wf(),
        ensures
            final(self).wf(),
            cap.name@.len() == 0 ==> r == Err::<(), StoreError>(StoreError::Validation { field: Field::Name, reason: Reason::Empty }),
            cap.name@.len() > 0 && !has_id(old(self).agents@, cap.agent_id) ==> r == Err::<(), StoreError>(StoreError::DanglingReference { field: Field::AgentId, target_id: cap.agent_id }),
            cap.name@.len() > 0 && has_id(old(self).agents@, cap.agent_id) && has_id(old(self).capabilities@, cap.id) ==> r == Err::<(), StoreError>(StoreError::DuplicateId { id: cap.id }),
            r is Err ==> final(self).same(old(self)),
            r is Ok <==> cap.name@.len() > 0 && has_id(old(self).agents@, cap.agent_id) && !has_id(old(self).capabilities@, cap.id),
            r is Ok ==> final(self).capabilities@ == old(self).capabilities@.push(cap) && final(self).same_except(old(self), Table::Capabilities),
    {
        if cap.name.as_str().is_empty() {
            return Err(StoreError::Validation { field: Field::Name, reason: Reason::Empty });
        }
        if find_row(&self.agents, cap.agent_id).is_none() {
            return Err(StoreError::DanglingReference { field: Field::AgentId, target_id: cap.agent_id });
        }
        if find_row(&self.capabilities, cap.id).is_some() {
            return Err(StoreError::DuplicateId { id: cap.id });
        }
        proof {
            lemma_unique_push(self.capabilities@, cap);
            lemma_links_push_child(self.capabilities@, self.agents@, cap);
        }
        self.capabilities.push(cap);
        Ok(())
    }

    /// Opens a conversation between an agent and a user.
    pub fn start_conversation(&mut self, conversation: Conversation) -> (r: Result<(), StoreError>)
        requires
            old(self).wf(),
        ensures
            final(self).wf(),
            !has_id(old(self).agents@, conversation.agent_id) ==> r == Err::<(), StoreError>(StoreError::DanglingReference { field: Field::AgentId, target_id: conversation.agent_id }),
            has_id(old(self).agents@, conversation.agent_id) && !has_id(old(self).users@, conversation.user_id) ==> r == Err::<(), StoreError>(StoreError::DanglingReference { field: Field::UserId, target_id: conversation.user_id }),
            has_id(old(self).agents@, conversation.agent_id) && has_id(old(self).users@, conversation.user_id) && has_id(old(self).conversations@, conversation.id) ==> r == Err::<(), StoreError>(StoreError::DuplicateId { id: conversation.id }),
            r is Err ==> final(self).same(old(self)),
            r is Ok <==> has_id(old(self).agents@, conversation.agent_id) && has_id(old(self).users@, conversation.user_id) && !has_id(old(self).conversations@, conversation.id),
            r is Ok ==> final(self).conversations@ == old(self).conversations@.push(conversation) && final(self).same_except(old(self), Table::Conversations),
    {
        if find_row(&self.agents, conversation.agent_id).is_none() {
            return Err(StoreError::DanglingReference { field: Field::AgentId, target_id: conversation.agent_id });
        }
        if find_row(&self.users, conversation.user_id).is_none() {
            return Err(StoreError::DanglingReference { field: Field::UserId, target_id: conversation.user_id });
        }
        if find_row(&self.conversations, conversation.id).is_some() {
            return Err(StoreError::DuplicateId { id: conversation.id });
        }
        proof {
            lemma_unique_push(self.conversations@, conversation);
            lemma_links_push_child(self.conversations@, self.agents@, conversation);
            lemma_links_push_parent(self.messages@, self.conversations@, conversation);
            assert forall|k: int| 0 <= k < self.conversations@.push(conversation).len() implies has_id(
                self.users@,
                #[trigger] self.conversations@.push(conversation)[k].user_id,
            ) by {
                if k < self.conversations@.len() {
                    assert(self.conversations@.push(conversation)[k] == self.conversations@[k]);
                }
            }
        }
        self.conversations.push(conversation);
        Ok(())
    }

    /// Appends a message to a conversation's log, stamped with `now`.
    pub fn append_message(&mut self, id: u128, conversation_id: u128, role: String, content: String, metadata: String, now: u64) -> (r: Result<(), StoreError>)
        requires
            old(self).wf(),
        ensures
            final(self).wf(),
            role@.len() == 0 ==> r == Err::<(), StoreError>(StoreError::Validation { field: Field::Role, reason: Reason::Empty }),
            role@.len() > 0 && !has_id(old(self).conversations@, conversation_id) ==> r == Err::<(), StoreError>(StoreError::DanglingReference { field: Field::ConversationId, target_id: conversation_id }),
            role@.len() > 0 && has_id(old(self).conversations@, conversation_id) && has_id(old(self).messages@, id) ==> r == Err::<(), StoreError>(StoreError::DuplicateId { id }),
            r is Err ==> final(self).same(old(self)),
            r is Ok <==> role@.len() > 0 && has_id(old(self).conversations@, conversation_id) && !has_id(old(self).messages@, id),
            r is Ok ==> final(self).messages@ == old(self).messages@.push((Message { id, conversation_id, role, content, metadata, created_at: now })) && final(self).same_except(old(self), Table::Messages),
    {
        let row = Message { id, conversation_id, role, content, metadata, created_at: now };
        if row.role.as_str().is_empty() {
            return Err(StoreError::Validation { field: Field::Role, reason: Reason::Empty });
        }
        if find_row(&self.conversations, row.conversation_id).is_none() {
            return Err(StoreError::DanglingReference { field: Field::ConversationId, target_id: row.conversation_id });
        }
        if find_row(&self.messages, row.id).is_some() {
            return Err(StoreError::DuplicateId { id: row.id });
        }
        proof {
            lemma_unique_push(self.messages@, row);
            lemma_links_push_child(self.messages@, self.conversations@, row);
        }
        self.messages.push(row);
        Ok(())
    }

    /// Stores a memory of an agent.
    pub fn store_memory(&mut self, memory: Memory) -> (r: Result<(), StoreError>)
        requires
            old(self).wf(),
        ensures
            final(self).wf(),
            !has_id(old(self).agents@, memory.agent_id) ==> r == Err::<(), StoreError>(StoreError::DanglingReference { field: Field::AgentId, target_id: memory.agent_id }),
            has_id(old(self).agents@, memory.agent_id) && has_id(old(self).memories@, memory.id) ==> r == Err::<(), StoreError>(StoreError::DuplicateId { id: memory.id }),
            r is Err ==> final(self).same(old(self)),
            r is Ok <==> has_id(old(self).agents@, memory.agent_id) && !has_id(old(self).memories@, memory.id),
            r is Ok ==> final(self).memories@ == old(self).memories@.push(memory) && final(self).same_except(old(self), Table::Memories),
    {
        if find_row(&self.agents, memory.agent_id).is_none() {
            return Err(StoreError::DanglingReference { field: Field::AgentId, target_id: memory.agent_id });
        }
        if find_row(&self.memories, memory.id).is_some() {
            return Err(StoreError::DuplicateId { id: memory.id });
        }
        proof {
            lemma_unique_push(self.memories@, memory);
            lemma_links_push_child(self.memories@, self.agents@, memory);
        }
        self.memories.push(memory);
        Ok(())
    }

    /// Adds a knowledge base.
    pub fn create_knowledge_base(&mut self, kb: KnowledgeBase) -> (r: Result<(), StoreError>)
        requires
            old(self).wf(),
        ensures
            final(self).wf(),
            kb.name@.len() == 0 ==> r == Err::<(), StoreError>(StoreError::Validation { field: Field::Name, reason: Reason::Empty }),
            kb.name@.len() > 0 && has_id(old(self).knowledge_bases@, kb.id) ==> r == Err::<(), StoreError>(StoreError::DuplicateId { id: kb.id }),
            r is Err ==> final(self).same(old(self)),
            r is Ok <==> kb.name@.len() > 0 && !has_id(old(self).knowledge_bases@, kb.id),
            r is Ok ==> final(self).knowledge_bases@ == old(self).knowledge_bases@.push(kb) && final(self).same_except(old(self), Table::KnowledgeBases),
    {
        if kb.name.as_str().is_empty() {
            return Err(StoreError::Validation { field: Field::Name, reason: Reason::Empty });
        }
        if find_row(&self.knowledge_bases, kb.id).is_some() {
            return Err(StoreError::DuplicateId { id: kb.id });
        }
        proof {
            lemma_unique_push(self.knowledge_bases@, kb);
            lemma_links_push_parent(self.knowledge_items@, self.knowledge_bases@, kb);
        }
        self.knowledge_bases.push(kb);
        Ok(())
    }

    /// Adds an item to a knowledge base.
    pub fn add_knowledge_item(&mut self, item: KnowledgeItem) -> (r: Result<(), StoreError>)
        requires
            old(self).wf(),
        ensures
            final(self).wf(),
            !has_id(old(self).knowledge_bases@, item.knowledge_base_id) ==> r == Err::<(), StoreError>(StoreError::DanglingReference { field: Field::KnowledgeBaseId, target_id: item.knowledge_base_id }),
            has_id(old(self).knowledge_bases@, item.knowledge_base_id) && has_id(old(self).knowledge_items@, item.id) ==> r == Err::<(), StoreError>(StoreError::DuplicateId { id: item.id }),
            r is Err ==> final(self).same(old(self)),
            r is Ok <==> has_id(old(self).knowledge_bases@, item.knowledge_base_id) && !has_id(old(self).knowledge_items@, item.id),
            r is Ok ==> final(self).knowledge_items@ == old(self).knowledge_items@.push(item) && final(self).same_except(old(self), Table::KnowledgeItems),
    {
        if find_row(&self.knowledge_bases, item.knowledge_base_id).is_none() {
            return Err(StoreError::DanglingReference { field: Field::KnowledgeBaseId, target_id: item.knowledge_base_id });
        }
        if find_row(&self.knowledge_items, item.id).is_some() {
            return Err(StoreError::DuplicateId { id: item.id });
        }
        proof {
            lemma_unique_push(self.knowledge_items@, item);
            lemma_links_push_child(self.knowledge_items@, self.knowledge_bases@, item);
        }
        self.knowledge_items.push(item);
        Ok(())
    }

    /// Adds a learning model.
    pub fn create_model(&mut self, model: LearningModel) -> (r: Result<(), StoreError>)
        requires
            old(self).wf(),
        ensures
            final(self).wf(),
            model.name@.len() == 0 ==> r == Err::<(), StoreError>(StoreError::Validation { field: Field::Name, reason: Reason::Empty }),
            model.name@.len() > 0 && has_id(old(self).models@, model.id) ==> r == Err::<(), StoreError>(StoreError::DuplicateId { id: model.id }),
            r is Err ==> final(self).same(old(self)),
            r is Ok <==> model.name@.len() > 0 && !has_id(old(self).models@, model.id),
            r is Ok ==> final(self).models@ == old(self).models@.push(model) && final(self).same_except(old(self), Table::Models),
    {
        if model.name.as_str().is_empty() {
            return Err(StoreError::Validation { field: Field::Name, reason: Reason::Empty });
        }
        if find_row(&self.models, model.id).is_some() {
            return Err(StoreError::DuplicateId { id: model.id });
        }
        proof {
            lemma_unique_push(self.models@, model);
            lemma_links_push_parent(self.training_examples@, self.models@, model);
        }
        self.models.push(model);
        Ok(())
    }

    /// Adds a training example to a learning model.
    pub fn add_training_example(&mut self, example: TrainingExample) -> (r: Result<(), StoreError>)
        requires
            old(self).wf(),
        ensures
            final(self).wf(),
            example.input@.len() == 0 ==> r == Err::<(), StoreError>(StoreError::Validation { field: Field::Input, reason: Reason::Empty }),
            example.input@.len() > 0 && example.output@.len() == 0 ==> r == Err::<(), StoreError>(StoreError::Validation { field: Field::Output, reason: Reason::Empty }),
            example.input@.len() > 0 && example.output@.len() > 0 && !has_id(old(self).models@, example.model_id) ==> r == Err::<(), StoreError>(StoreError::DanglingReference { field: Field::ModelId, target_id: example.model_id }),
            example.input@.len() > 0 && example.output@.len() > 0 && has_id(old(self).models@, example.model_id) && has_id(old(self).training_examples@, example.id) ==> r == Err::<(), StoreError>(StoreError::DuplicateId { id: example.id }),
            r is Err ==> final(self).same(old(self)),
            r is Ok <==> example.input@.len() > 0 && example.output@.len() > 0 && has_id(old(self).models@, example.model_id) && !has_id(old(self).training_examples@, example.id),
            r is Ok ==> final(self).training_examples@ == old(self).training_examples@.push(example) && final(self).same_except(old(self), Table::TrainingExamples),
    {
        if example.input.as_str().is_empty() {
            return Err(StoreError::Validation { field: Field::Input, reason: Reason::Empty });
        }
        if example.output.as_str().is_empty() {
            return Err(StoreError::Validation { field: Field::Output, reason: Reason::Empty });
        }
        if find_row(&self.models, example.model_id).is_none() {
            return Err(StoreError::DanglingReference { field: Field::ModelId, target_id: example.model_id });
        }
        if find_row(&self.training_examples, example.id).is_some() {
            return Err(StoreError::DuplicateId { id: example.id });
        }
        proof {
            lemma_unique_push(self.training_examples@, example);
            lemma_links_push_child(self.training_examples@, self.models@, example);
        }
        self.training_examples.push(example);
        Ok(())
    }
}

} // verus!

verus! {

/// The row with id `x`, if any.
fn get_row<'a, T: Row>(v: &'a Vec<T>, x: u128) -> (r: Option<&'a T>)
    ensures
        match r {
            Some(t) => t.row_id() == x && v@.contains(*t),
            None => !has_id(v@, x),
        },
{
    match find_row(v, x) {
        Some(i) => Some(&v[i]),
        None => None,
    }
}

impl Store {
    /// Deletes a task and every dependency in which it takes part.
    pub fn delete_task(&mut self, id: u128) -> (r: Result<(), StoreError>)
        requires
            old(self).wf(),
        ensures
            final(self).wf(),
            r is Ok <==> has_id(old(self).tasks@, id),
            r is Err ==> r == Err::<(), StoreError>(StoreError::NotFound { id }) && final(self).same(old(self)),
            r is Ok ==> final(self).same_except_two(old(self), Table::Tasks, Table::Dependencies)
                && final(self).dependencies@ == without_links(old(self).dependencies@, set![id])
                && forall|i: int|
                0 <= i < old(self).tasks@.len() && #[trigger] old(self).tasks@[i].id == id ==> final(self).tasks@
                    == old(self).tasks@.remove(i),
    {
        let i = match find_row(&self.tasks, id) {
            Some(i) => i,
            None => {
                return Err(StoreError::NotFound { id });
            },
        };
        let ghost s0 = *self;
        let mut one: Vec<u128> = Vec::new();
        one.push(id);
        proof {
            lemma_one_set(one@, id);
        }
        retain_unlinked(&mut self.dependencies, &one);
        self.tasks.remove(i);
        proof {
            let g = set![id];
            assert forall|i2: int| 0 <= i2 < s0.tasks@.len() && #[trigger] s0.tasks@[i2].id == id implies i2 == i by {
                assert(s0.tasks@[i2].row_id() == s0.tasks@[i as int].row_id());
            }
            lemma_without_unique(s0.dependencies@, g);
            crate::row::lemma_unique_remove(s0.tasks@, i as int);
            crate::graph::lemma_acyclic_filter(
                s0.dependencies@,
                |r: TaskDependency| !g.contains(r.link_a()) && !g.contains(r.link_b()),
            );
            assert forall|k: int| 0 <= k < self.dependencies@.len() implies has_id(
                self.tasks@,
                #[trigger] self.dependencies@[k].link_a(),
            ) && has_id(self.tasks@, self.dependencies@[k].link_b()) by {
                lemma_without_member(s0.dependencies@, g, k);
                let d = self.dependencies@[k];
                let j = choose|j: int| 0 <= j < s0.dependencies@.len() && s0.dependencies@[j] == d;
                assert(has_id(s0.tasks@, s0.dependencies@[j].link_a()));
                crate::row::lemma_has_id_remove(s0.tasks@, i as int, d.link_a());
                crate::row::lemma_has_id_remove(s0.tasks@, i as int, d.link_b());
            }
            assert forall|k: int| 0 <= k < self.tasks@.len() implies has_id(self.agents@, #[trigger] self.tasks@[k].link_a())
                && has_id(self.agents@, self.tasks@[k].link_b()) && (self.tasks@[k].completed_at is Some <==> terminal(
                self.tasks@[k].status,
            )) by {
                let k0 = if k < i { k } else { k + 1 };
                assert(self.tasks@[k] == s0.tasks@[k0]);
                assert(has_id(s0.agents@, s0.tasks@[k0].link_a()));
                assert(has_id(s0.agents@, s0.tasks@[k0].link_b()));
            }
        }
        Ok(())
    }

    /// Deletes a conversation and its messages.
    pub fn delete_conversation(&mut self, id: u128) -> (r: Result<(), StoreError>)
        requires
            old(self).wf(),
        ensures
            final(self).wf(),
            r is Ok <==> has_id(old(self).conversations@, id),
            r is Err ==> r == Err::<(), StoreError>(StoreError::NotFound { id }) && final(self).same(old(self)),
            r is Ok ==> final(self).same_except_two(old(self), Table::Conversations, Table::Messages)
                && final(self).messages@ == without_links(old(self).messages@, set![id])
                && forall|i: int|
                0 <= i < old(self).conversations@.len() && #[trigger] old(self).conversations@[i].id == id
                    ==> final(self).conversations@ == old(self).conversations@.remove(i),
    {
        let i = match find_row(&self.conversations, id) {
            Some(i) => i,
            None => {
                return Err(StoreError::NotFound { id });
            },
        };
        let ghost s0 = *self;
        let mut one: Vec<u128> = Vec::new();
        one.push(id);
        proof {
            lemma_one_set(one@, id);
        }
        retain_unlinked(&mut self.messages, &one);
        self.conversations.remove(i);
        proof {
            let g = set![id];
            assert forall|i2: int|
                0 <= i2 < s0.conversations@.len() && #[trigger] s0.conversations@[i2].id == id implies i2 == i by {
                assert(s0.conversations@[i2].row_id() == s0.conversations@[i as int].row_id());
            }
            lemma_without_unique(s0.messages@, g);
            crate::row::lemma_unique_remove(s0.conversations@, i as int);
            assert forall|k: int| 0 <= k < self.messages@.len() implies has_id(
                self.conversations@,
                #[trigger] self.messages@[k].link_a(),
            ) && has_id(self.conversations@, self.messages@[k].link_b()) by {
                lemma_without_member(s0.messages@, g, k);
                let m = self.messages@[k];
                let j = choose|j: int| 0 <= j < s0.messages@.len() && s0.messages@[j] == m;
                assert(has_id(s0.conversations@, s0.messages@[j].link_a()));
                crate::row::lemma_has_id_remove(s0.conversations@, i as int, m.link_a());
            }
            assert forall|k: int| 0 <= k < self.conversations@.len() implies has_id(
                self.agents@,
                #[trigger] self.conversations@[k].link_a(),
            ) && has_id(self.agents@, self.conversations@[k].link_b()) && has_id(
                self.users@,
                self.conversations@[k].user_id,
            ) by {
                let k0 = if k < i { k } else { k + 1 };
                assert(self.conversations@[k] == s0.conversations@[k0]);
                assert(has_id(s0.agents@, s0.conversations@[k0].link_a()));
                assert(has_id(s0.agents@, s0.conversations@[k0].link_b()));
                assert(has_id(s0.users@, s0.conversations@[k0].user_id));
            }
        }
        Ok(())
    }

    /// Forgets a user. Conversations do not cascade from their user: while
    /// one refers to the user, the user stays and the call fails.
    pub fn remove_user(&mut self, id: u128) -> (r: Result<(), StoreError>)
        requires
            old(self).wf(),
        ensures
            final(self).wf(),
            !has_id(old(self).users@, id) ==> r == Err::<(), StoreError>(StoreError::NotFound { id }),
            has_id(old(self).users@, id) && (exists|k: int|
                0 <= k < old(self).conversations@.len() && #[trigger] old(self).conversations@[k].user_id == id)
                ==> r == Err::<(), StoreError>(StoreError::ReferentialConflict { id }),
            r is Ok <==> has_id(old(self).users@, id) && forall|k: int|
                0 <= k < old(self).conversations@.len() ==> #[trigger] old(self).conversations@[k].user_id != id,
            r is Err ==> final(self).same(old(self)),
            r is Ok ==> final(self).same_except(old(self), Table::Users) && final(self).users@ == without_links(
                old(self).users@,
                set![id],
            ),
    {
        if find_row(&self.users, id).is_none() {
            return Err(StoreError::NotFound { id });
        }
        let mut k: usize = 0;
        while k < self.conversations.len()
            invariant
                self.wf(),
                has_id(self.users@, id),
                k <= self.conversations@.len(),
                forall|k2: int| 0 <= k2 < k ==> #[trigger] self.conversations@[k2].user_id != id,
            decreases self.conversations@.len() - k,
        {
            if self.conversations[k].user_id == id {
                return Err(StoreError::ReferentialConflict { id });
            }
            k += 1;
        }
        let ghost s0 = *self;
        let mut one: Vec<u128> = Vec::new();
        one.push(id);
        proof {
            lemma_one_set(one@, id);
        }
        retain_unlinked(&mut self.users, &one);
        proof {
            let g = set![id];
            let p = |r: User| !g.contains(r.link_a()) && !g.contains(r.link_b());
            lemma_without_unique(s0.users@, g);
            assert forall|k2: int| 0 <= k2 < self.conversations@.len() implies has_id(
                self.users@,
                #[trigger] self.conversations@[k2].user_id,
            ) by {
                let x = self.conversations@[k2].user_id;
                assert(has_id(s0.users@, x));
                let j = choose|j: int| 0 <= j < s0.users@.len() && #[trigger] s0.users@[j].row_id() == x;
                assert(p(s0.users@[j]));
                crate::row::lemma_filter_has_id(s0.users@, p, x);
            }
        }
        Ok(())
    }

    /// Deletes a knowledge base and its items.
    pub fn delete_knowledge_base(&mut self, id: u128) -> (r: Result<(), StoreError>)
        requires
            old(self).wf(),
        ensures
            final(self).wf(),
            r is Ok <==> has_id(old(self).knowledge_bases@, id),
            r is Err ==> r == Err::<(), StoreError>(StoreError::NotFound { id }) && final(self).same(old(self)),
            r is Ok ==> final(self).same_except_two(old(self), Table::KnowledgeBases, Table::KnowledgeItems)
                && final(self).knowledge_bases@ == without_links(old(self).knowledge_bases@, set![id])
                && final(self).knowledge_items@ == without_links(old(self).knowledge_items@, set![id]),
    {
        if find_row(&self.knowledge_bases, id).is_none() {
            return Err(StoreError::NotFound { id });
        }
        let ghost s0 = *self;
        let mut one: Vec<u128> = Vec::new();
        one.push(id);
        proof {
            lemma_one_set(one@, id);
        }
        retain_unlinked(&mut self.knowledge_items, &one);
        retain_unlinked(&mut self.knowledge_bases, &one);
        proof {
            let g = set![id];
            lemma_without_unique(s0.knowledge_items@, g);
            lemma_without_unique(s0.knowledge_bases@, g);
            lemma_links_without(s0.knowledge_items@, s0.knowledge_bases@, g, g);
        }
        Ok(())
    }

    /// Deletes a learning model and its training examples.
    pub fn delete_model(&mut self, id: u128) -> (r: Result<(), StoreError>)
        requires
            old(self).wf(),
        ensures
            final(self).wf(),
            r is Ok <==> has_id(old(self).models@, id),
            r is Err ==> r == Err::<(), StoreError>(StoreError::NotFound { id }) && final(self).same(old(self)),
            r is Ok ==> final(self).same_except_two(old(self), Table::Models, Table::TrainingExamples)
                && final(self).models@ == without_links(old(self).models@, set![id])
                && final(self).training_examples@ == without_links(old(self).training_examples@, set![id]),
    {
        if find_row(&self.models, id).is_none() {
            return Err(StoreError::NotFound { id });
        }
        let ghost s0 = *self;
        let mut one: Vec<u128> = Vec::new();
        one.push(id);
        proof {
            lemma_one_set(one@, id);
        }
        retain_unlinked(&mut self.training_examples, &one);
        retain_unlinked(&mut self.models, &one);
        proof {
            let g = set![id];
            lemma_without_unique(s0.training_examples@, g);
            lemma_without_unique(s0.models@, g);
            lemma_links_without(s0.training_examples@, s0.models@, g, g);
        }
        Ok(())
    }

    /// Marks memory `id` as read for recall at time `now`.
    pub fn recall_memory(&mut self, id: u128, now: u64) -> (r: Result<(), StoreError>)
        requires
            old(self).wf(),
        ensures
            final(self).wf(),
            r is Ok <==> has_id(old(self).memories@, id),
            r is Err ==> r == Err::<(), StoreError>(StoreError::NotFound { id }) && final(self).same(old(self)),
            r is Ok ==> final(self).same_except(old(self), Table::Memories) && forall|i: int|
                0 <= i < old(self).memories@.len() && #[trigger] old(self).memories@[i].id == id ==> final(self).memories@
                    == old(self).memories@.update(
                    i,
                    (Memory { last_accessed: Some(now), ..old(self).memories@[i] }),
                ),
    {
        let i = match find_row(&self.memories, id) {
            Some(i) => i,
            None => {
                return Err(StoreError::NotFound { id });
            },
        };
        let ghost s0 = self.memories@;
        let mut m = self.memories.remove(i);
        m.last_accessed = Some(now);
        self.memories.insert(i, m);
        proof {
            assert(self.memories@ =~= s0.update(i as int, Memory { last_accessed: Some(now), ..s0[i as int] }));
            assert forall|i2: int| 0 <= i2 < s0.len() && #[trigger] s0[i2].id == id implies i2 == i by {
                assert(s0[i2].row_id() == s0[i as int].row_id());
            }
            crate::row::lemma_same_keys(s0, self.memories@);
            assert forall|k: int| 0 <= k < self.memories@.len() implies has_id(self.agents@, #[trigger] self.memories@[k].link_a())
                && has_id(self.agents@, self.memories@[k].link_b()) by {
                assert(self.memories@[k].link_a() == s0[k].link_a());
            }
        }
        Ok(())
    }

    pub fn get_agent(&self, id: u128) -> (r: Option<&Agent>)
        ensures
            match r {
                Some(t) => t.id == id && self.agents@.contains(*t),
                None => !has_id(self.agents@, id),
            },
    {
        get_row(&self.agents, id)
    }

    pub fn get_task(&self, id: u128) -> (r: Option<&Task>)
        ensures
            match r {
                Some(t) => t.id == id && self.tasks@.contains(*t),
                None => !has_id(self.tasks@, id),
            },
    {
        get_row(&self.tasks, id)
    }

    pub fn get_conversation(&self, id: u128) -> (r: Option<&Conversation>)
        ensures
            match r {
                Some(t) => t.id == id && self.conversations@.contains(*t),
                None => !has_id(self.conversations@, id),
            },
    {
        get_row(&self.conversations, id)
    }

    pub fn get_memory(&self, id: u128) -> (r: Option<&Memory>)
        ensures
            match r {
                Some(t) => t.id == id && self.memories@.contains(*t),
                None => !has_id(self.memories@, id),
            },
    {
        get_row(&self.memories, id)
    }

    pub fn get_knowledge_item(&self, id: u128) -> (r: Option<&KnowledgeItem>)
        ensures
            match r {
                Some(t) => t.id == id && self.knowledge_items@.contains(*t),
                None => !has_id(self.knowledge_items@, id),
            },
    {
        get_row(&self.knowledge_items, id)
    }

    pub fn get_model(&self, id: u128) -> (r: Option<&LearningModel>)
        ensures
            match r {
                Some(t) => t.id == id && self.models@.contains(*t),
                None => !has_id(self.models@, id),
            },
    {
        get_row(&self.models, id)
    }
}

proof fn lemma_one_set(s: Seq<u128>, id: u128)
    requires
        s == seq![id],
    ensures
        s.to_set() == set![id],
{
    assert forall|x: u128| s.to_set().contains(x) <==> x == id by {
        assert(s[0] == id);
        if s.contains(x) {
            let j = choose|j: int| 0 <= j < s.len() && s[j] == x;
            assert(j == 0);
        }
    }
    assert(s.to_set() =~= set![id]);
}

} // verus!

verus! {

/// A task with a new dependency on a task that has not succeeded is no
/// longer runnable.
pub proof fn lemma_new_dependency_blocks(s1: Store, s2: Store, dep: TaskDependency, t: Task)
    requires
        s1.wf(),
        s2.tasks@ == s1.tasks@,
        s2.dependencies@ == s1.dependencies@.push(dep),
        dep.task_id == t.id,
        exists|k: int|
            0 <= k < s1.tasks@.len() && #[trigger] s1.tasks@[k].id == dep.depends_on_task_id && s1.tasks@[k].status
                != TaskStatus::Succeeded,
    ensures
        !runnable(s2, t),
{
    let k = choose|k: int|
        0 <= k < s1.tasks@.len() && #[trigger] s1.tasks@[k].id == dep.depends_on_task_id && s1.tasks@[k].status
            != TaskStatus::Succeeded;
    let j = s1.dependencies@.len() as int;
    assert(s2.dependencies@[j] == dep);
    assert forall|k2: int|
        0 <= k2 < s2.tasks@.len() && #[trigger] s2.tasks@[k2].id == dep.depends_on_task_id implies s2.tasks@[k2].status
        != TaskStatus::Succeeded by {
        assert(s1.tasks@[k2].row_id() == s1.tasks@[k].row_id());
    }
}

/// When the one dependency that held a waiting task back succeeds, the task
/// becomes runnable.
pub proof fn lemma_success_unblocks(s1: Store, s2: Store, k: int, now: u64, t: Task)
    requires
        s1.wf(),
        0 <= k < s1.tasks@.len(),
        s2.dependencies@ == s1.dependencies@,
        s2.tasks@ == s1.tasks@.update(k, stepped(s1.tasks@[k], TaskStatus::Succeeded, now)),
        t.status == TaskStatus::Pending || t.status == TaskStatus::Ready,
        forall|j: int|
            0 <= j < s1.dependencies@.len() && #[trigger] s1.dependencies@[j].task_id == t.id
                && s1.dependencies@[j].depends_on_task_id != s1.tasks@[k].id ==> exists|k2: int|
                0 <= k2 < s1.tasks@.len() && #[trigger] s1.tasks@[k2].id == s1.dependencies@[j].depends_on_task_id
                    && s1.tasks@[k2].status == TaskStatus::Succeeded,
    ensures
        runnable(s2, t),
{
    assert forall|j: int|
        0 <= j < s2.dependencies@.len() && #[trigger] s2.dependencies@[j].task_id == t.id implies exists|k2: int|
        0 <= k2 < s2.tasks@.len() && #[trigger] s2.tasks@[k2].id == s2.dependencies@[j].depends_on_task_id
            && s2.tasks@[k2].status == TaskStatus::Succeeded by {
        if s1.dependencies@[j].depends_on_task_id == s1.tasks@[k].id {
            assert(s2.tasks@[k].id == s2.dependencies@[j].depends_on_task_id);
        } else {
            let k2 = choose|k2: int|
                0 <= k2 < s1.tasks@.len() && #[trigger] s1.tasks@[k2].id == s1.dependencies@[j].depends_on_task_id
                    && s1.tasks@[k2].status == TaskStatus::Succeeded;
            assert(k2 != k);
            assert(s2.tasks@[k2] == s1.tasks@[k2]);
        }
    }
}

/// A transition never moves a task's update time back, keeps its creation
/// time, and stamps the completion time exactly when it enters a terminal
/// status; a terminal task admits no further transition.
pub proof fn lemma_transition_stamps(t: Task, to: TaskStatus, now: u64)
    ensures
        stepped(t, to, now).updated_at >= t.updated_at,
        stepped(t, to, now).created_at == t.created_at,
        terminal(to) ==> stepped(t, to, now).completed_at == Some(now),
        !terminal(to) ==> stepped(t, to, now).completed_at == t.completed_at,
        terminal(t.status) ==> !allowed(t.status, to),
{
}

/// A row read back by id after it was inserted is the row inserted.
pub proof fn lemma_read_back<T: Row>(before: Seq<T>, row: T, read: T)
    requires
        unique_ids(before.push(row)),
        before.push(row).contains(read),
        read.row_id() == row.row_id(),
    ensures
        read == row,
{
    let s = before.push(row);
    let j = choose|j: int| 0 <= j < s.len() && s[j] == read;
    let n = before.len() as int;
    assert(s[n] == row);
    assert(s[j].row_id() == s[n].row_id());
}

} // verus!
