use agent_store::entity::{
    Agent, AgentCapability, Conversation, KnowledgeBase, KnowledgeItem, LearningModel, Memory, TrainingExample, User,
};
use agent_store::error::{Field, Reason, StoreError};
use agent_store::status::{AgentStatus, TaskStatus};
use agent_store::store::Store;

fn agent(id: u128, name: &str) -> Agent {
    Agent {
        id,
        name: name.to_string(),
        kind: "planner".to_string(),
        status: AgentStatus::Active,
        config: "{}".to_string(),
    }
}

fn task(s: &mut Store, id: u128, agent_id: u128, now: u64) -> Result<(), StoreError> {
    s.create_task(id, agent_id, format!("task-{}", id), String::new(), 1, "{}".to_string(), "{}".to_string(), now)
}

fn sorted(mut v: Vec<u128>) -> Vec<u128> {
    v.sort();
    v
}

fn run(s: &mut Store, id: u128, now: u64) {
    s.transition(id, TaskStatus::Ready, now).unwrap();
    s.transition(id, TaskStatus::Running, now).unwrap();
}

#[test]
fn scenario_two_tasks_and_cycle() {
    let mut s = Store::new();
    s.create_agent(agent(1, "A")).unwrap();
    task(&mut s, 10, 1, 100).unwrap();
    task(&mut s, 11, 1, 100).unwrap();
    s.add_dependency(500, 11, 10).unwrap();
    assert_eq!(s.ready_set(1), vec![10]);
    run(&mut s, 10, 110);
    s.transition(10, TaskStatus::Succeeded, 120).unwrap();
    assert_eq!(s.ready_set(1), vec![11]);
    assert_eq!(s.add_dependency(501, 10, 11), Err(StoreError::CycleDetected));
    assert_eq!(s.dependencies.len(), 1);
}

#[test]
fn longer_cycle_is_refused_and_edges_unchanged() {
    let mut s = Store::new();
    s.create_agent(agent(1, "A")).unwrap();
    for id in 10..14u128 {
        task(&mut s, id, 1, 0).unwrap();
    }
    s.add_dependency(1, 10, 11).unwrap();
    s.add_dependency(2, 11, 12).unwrap();
    s.add_dependency(3, 12, 13).unwrap();
    assert_eq!(s.add_dependency(4, 13, 10), Err(StoreError::CycleDetected));
    assert_eq!(s.add_dependency(4, 12, 10), Err(StoreError::CycleDetected));
    assert_eq!(s.dependencies.len(), 3);
    // A diamond is no cycle.
    s.add_dependency(4, 10, 13).unwrap();
    assert_eq!(s.dependencies.len(), 4);
}

#[test]
fn dependency_errors() {
    let mut s = Store::new();
    s.create_agent(agent(1, "A")).unwrap();
    task(&mut s, 10, 1, 0).unwrap();
    task(&mut s, 11, 1, 0).unwrap();
    assert_eq!(s.add_dependency(1, 10, 10), Err(StoreError::SelfDependency));
    assert_eq!(s.add_dependency(1, 99, 10), Err(StoreError::UnknownTask { id: 99 }));
    assert_eq!(s.add_dependency(1, 10, 98), Err(StoreError::UnknownTask { id: 98 }));
    s.add_dependency(1, 10, 11).unwrap();
    assert_eq!(s.add_dependency(1, 11, 10), Err(StoreError::DuplicateId { id: 1 }));
}

#[test]
fn ready_set_follows_dependencies() {
    let mut s = Store::new();
    s.create_agent(agent(1, "A")).unwrap();
    s.create_agent(agent(2, "B")).unwrap();
    task(&mut s, 10, 1, 0).unwrap();
    task(&mut s, 11, 1, 0).unwrap();
    task(&mut s, 20, 2, 0).unwrap();
    assert_eq!(sorted(s.ready_set(1)), vec![10, 11]);
    assert_eq!(s.ready_set(2), vec![20]);
    // A new dependency that has not succeeded removes the task.
    s.add_dependency(1, 10, 11).unwrap();
    assert_eq!(s.ready_set(1), vec![11]);
    // A task in Ready still counts.
    s.transition(11, TaskStatus::Ready, 1).unwrap();
    assert_eq!(s.ready_set(1), vec![11]);
    s.transition(11, TaskStatus::Running, 2).unwrap();
    assert_eq!(s.ready_set(1), Vec::<u128>::new());
    s.transition(11, TaskStatus::Succeeded, 3).unwrap();
    assert_eq!(s.ready_set(1), vec![10]);
    // A dependency on a failed task keeps the dependent out.
    task(&mut s, 12, 1, 0).unwrap();
    task(&mut s, 13, 1, 0).unwrap();
    s.add_dependency(2, 13, 12).unwrap();
    run(&mut s, 12, 4);
    s.transition(12, TaskStatus::Failed, 5).unwrap();
    assert_eq!(sorted(s.ready_set(1)), vec![10]);
}

#[test]
fn transition_table_is_exact() {
    let all = [
        TaskStatus::Pending,
        TaskStatus::Ready,
        TaskStatus::Running,
        TaskStatus::Succeeded,
        TaskStatus::Failed,
        TaskStatus::Cancelled,
    ];
    let legal = [
        (TaskStatus::Pending, TaskStatus::Ready),
        (TaskStatus::Ready, TaskStatus::Running),
        (TaskStatus::Running, TaskStatus::Succeeded),
        (TaskStatus::Running, TaskStatus::Failed),
        (TaskStatus::Pending, TaskStatus::Cancelled),
        (TaskStatus::Ready, TaskStatus::Cancelled),
        (TaskStatus::Running, TaskStatus::Cancelled),
    ];
    for from in all {
        for to in all {
            let mut s = Store::new();
            s.create_agent(agent(1, "A")).unwrap();
            task(&mut s, 10, 1, 0).unwrap();
            // Bring the task to `from` along legal edges.
            let path: Vec<TaskStatus> = match from {
                TaskStatus::Pending => vec![],
                TaskStatus::Ready => vec![TaskStatus::Ready],
                TaskStatus::Running => vec![TaskStatus::Ready, TaskStatus::Running],
                TaskStatus::Succeeded => vec![TaskStatus::Ready, TaskStatus::Running, TaskStatus::Succeeded],
                TaskStatus::Failed => vec![TaskStatus::Ready, TaskStatus::Running, TaskStatus::Failed],
                TaskStatus::Cancelled => vec![TaskStatus::Cancelled],
            };
            for st in path {
                s.transition(10, st, 1).unwrap();
            }
            let r = s.transition(10, to, 2);
            if legal.contains(&(from, to)) {
                assert_eq!(r, Ok(()));
                assert_eq!(s.get_task(10).unwrap().status, to);
            } else {
                assert_eq!(r, Err(StoreError::IllegalTransition { from, to }));
                assert_eq!(s.get_task(10).unwrap().status, from);
            }
        }
    }
}

#[test]
fn terminal_status_stamps_completion_once() {
    let mut s = Store::new();
    s.create_agent(agent(1, "A")).unwrap();
    task(&mut s, 10, 1, 5).unwrap();
    assert_eq!(s.get_task(10).unwrap().completed_at, None);
    run(&mut s, 10, 6);
    assert_eq!(s.get_task(10).unwrap().completed_at, None);
    s.transition(10, TaskStatus::Succeeded, 9).unwrap();
    assert_eq!(s.get_task(10).unwrap().completed_at, Some(9));
    assert_eq!(
        s.transition(10, TaskStatus::Cancelled, 12),
        Err(StoreError::IllegalTransition { from: TaskStatus::Succeeded, to: TaskStatus::Cancelled })
    );
    assert_eq!(s.get_task(10).unwrap().completed_at, Some(9));
    task(&mut s, 11, 1, 5).unwrap();
    s.transition(11, TaskStatus::Cancelled, 7).unwrap();
    assert_eq!(s.get_task(11).unwrap().completed_at, Some(7));
    assert!(s.transition(11, TaskStatus::Ready, 8).is_err());
    assert_eq!(s.transition(99, TaskStatus::Ready, 8), Err(StoreError::UnknownTask { id: 99 }));
}

#[test]
fn update_time_never_goes_back() {
    let mut s = Store::new();
    s.create_agent(agent(1, "A")).unwrap();
    task(&mut s, 10, 1, 50).unwrap();
    s.transition(10, TaskStatus::Ready, 40).unwrap();
    let t = s.get_task(10).unwrap();
    assert_eq!(t.created_at, 50);
    assert_eq!(t.updated_at, 50);
    s.transition(10, TaskStatus::Running, 70).unwrap();
    assert_eq!(s.get_task(10).unwrap().updated_at, 70);
}

#[test]
fn round_trip_fields() {
    let mut s = Store::new();
    s.create_agent(agent(1, "A")).unwrap();
    assert_eq!(s.get_agent(1), Some(&agent(1, "A")));
    s.create_task(10, 1, "crawl".to_string(), "fetch pages".to_string(), 7, "{\"url\":1}".to_string(), "{}".to_string(), 33)
        .unwrap();
    let t = s.get_task(10).unwrap();
    assert_eq!(t.id, 10);
    assert_eq!(t.agent_id, 1);
    assert_eq!(t.name, "crawl");
    assert_eq!(t.description, "fetch pages");
    assert_eq!(t.priority, 7);
    assert_eq!(t.input, "{\"url\":1}");
    assert_eq!(t.output, "");
    assert_eq!(t.status, TaskStatus::Pending);
    assert_eq!(t.created_at, 33);
    assert_eq!(t.updated_at, 33);
    assert_eq!(t.completed_at, None);
    s.create_model(LearningModel {
        id: 3,
        name: "m".to_string(),
        kind: "classifier".to_string(),
        version: "1".to_string(),
        config: "{}".to_string(),
        metrics: "{}".to_string(),
        last_trained_at: None,
    })
    .unwrap();
    assert_eq!(s.get_model(3).unwrap().kind, "classifier");
    assert!(s.get_agent(2).is_none());
}

#[test]
fn validation_and_reference_errors() {
    let mut s = Store::new();
    assert_eq!(
        s.create_agent(agent(1, "")),
        Err(StoreError::Validation { field: Field::Name, reason: Reason::Empty })
    );
    s.create_agent(agent(1, "A")).unwrap();
    assert_eq!(s.create_agent(agent(1, "B")), Err(StoreError::DuplicateId { id: 1 }));
    assert_eq!(
        s.create_task(10, 1, "t".to_string(), String::new(), -1, String::new(), String::new(), 0),
        Err(StoreError::Validation { field: Field::Priority, reason: Reason::Negative })
    );
    assert_eq!(task(&mut s, 10, 2, 0), Err(StoreError::DanglingReference { field: Field::AgentId, target_id: 2 }));
    task(&mut s, 10, 1, 0).unwrap();
    assert_eq!(task(&mut s, 10, 1, 0), Err(StoreError::DuplicateId { id: 10 }));
    assert_eq!(
        s.add_capability(AgentCapability { id: 4, agent_id: 9, name: "search".to_string(), params: String::new() }),
        Err(StoreError::DanglingReference { field: Field::AgentId, target_id: 9 })
    );
    assert_eq!(
        s.append_message(5, 77, "user".to_string(), "hi".to_string(), String::new(), 1),
        Err(StoreError::DanglingReference { field: Field::ConversationId, target_id: 77 })
    );
    assert_eq!(
        s.add_training_example(TrainingExample {
            id: 1,
            model_id: 3,
            input: String::new(),
            output: "x".to_string(),
            metadata: String::new()
        }),
        Err(StoreError::Validation { field: Field::Input, reason: Reason::Empty })
    );
    assert_eq!(s.delete_agent(42), Err(StoreError::NotFound { id: 42 }));
    assert_eq!(s.tasks.len(), 1);
}

fn conversation(id: u128, agent_id: u128, user_id: u128) -> Conversation {
    Conversation {
        id,
        agent_id,
        user_id,
        title: "chat".to_string(),
        status: "open".to_string(),
        metadata: String::new(),
        created_at: 0,
        updated_at: 0,
    }
}

fn memory(id: u128, agent_id: u128) -> Memory {
    Memory {
        id,
        agent_id,
        kind: "episodic".to_string(),
        content: "saw a cat".to_string(),
        embedding: Some(vec![1, 2, 3]),
        metadata: String::new(),
        created_at: 0,
        last_accessed: None,
    }
}

#[test]
fn deleting_an_agent_cascades_and_nothing_else() {
    let mut s = Store::new();
    s.register_user(User { id: 900 }).unwrap();
    s.create_agent(agent(1, "A")).unwrap();
    s.create_agent(agent(2, "B")).unwrap();
    s.add_capability(AgentCapability { id: 1, agent_id: 1, name: "search".to_string(), params: String::new() }).unwrap();
    s.add_capability(AgentCapability { id: 2, agent_id: 2, name: "search".to_string(), params: String::new() }).unwrap();
    task(&mut s, 10, 1, 0).unwrap();
    task(&mut s, 11, 1, 0).unwrap();
    task(&mut s, 20, 2, 0).unwrap();
    task(&mut s, 21, 2, 0).unwrap();
    s.add_dependency(1, 11, 10).unwrap();
    s.add_dependency(2, 20, 10).unwrap();
    s.add_dependency(3, 21, 20).unwrap();
    s.start_conversation(conversation(30, 1, 900)).unwrap();
    s.start_conversation(conversation(31, 2, 900)).unwrap();
    s.append_message(40, 30, "user".to_string(), "hi".to_string(), String::new(), 1).unwrap();
    s.append_message(41, 31, "user".to_string(), "yo".to_string(), String::new(), 1).unwrap();
    s.store_memory(memory(50, 1)).unwrap();
    s.store_memory(memory(51, 2)).unwrap();
    s.create_knowledge_base(KnowledgeBase {
        id: 60,
        name: "kb".to_string(),
        kind: "docs".to_string(),
        config: String::new(),
    })
    .unwrap();

    s.delete_agent(1).unwrap();
    assert_eq!(s.agents.iter().map(|a| a.id).collect::<Vec<_>>(), vec![2]);
    assert_eq!(s.capabilities.iter().map(|c| c.id).collect::<Vec<_>>(), vec![2]);
    assert_eq!(s.tasks.iter().map(|t| t.id).collect::<Vec<_>>(), vec![20, 21]);
    assert_eq!(s.dependencies.iter().map(|d| d.id).collect::<Vec<_>>(), vec![3]);
    assert_eq!(s.conversations.iter().map(|c| c.id).collect::<Vec<_>>(), vec![31]);
    assert_eq!(s.messages.iter().map(|m| m.id).collect::<Vec<_>>(), vec![41]);
    assert_eq!(s.memories.iter().map(|m| m.id).collect::<Vec<_>>(), vec![51]);
    assert_eq!(s.users.len(), 1);
    assert_eq!(s.knowledge_bases.len(), 1);
    // The edge from a surviving task to a deleted one went with it.
    assert_eq!(s.ready_set(2), vec![20]);
}

#[test]
fn deleting_a_task_removes_its_edges() {
    let mut s = Store::new();
    s.create_agent(agent(1, "A")).unwrap();
    task(&mut s, 10, 1, 0).unwrap();
    task(&mut s, 11, 1, 0).unwrap();
    task(&mut s, 12, 1, 0).unwrap();
    s.add_dependency(1, 11, 10).unwrap();
    s.add_dependency(2, 12, 11).unwrap();
    assert_eq!(s.ready_set(1), vec![10]);
    s.delete_task(11).unwrap();
    assert_eq!(s.dependencies.len(), 0);
    assert_eq!(sorted(s.ready_set(1)), vec![10, 12]);
    assert_eq!(s.delete_task(11), Err(StoreError::NotFound { id: 11 }));
}

#[test]
fn users_referenced_by_conversations_stay() {
    let mut s = Store::new();
    s.register_user(User { id: 900 }).unwrap();
    assert_eq!(s.register_user(User { id: 900 }), Err(StoreError::DuplicateId { id: 900 }));
    s.create_agent(agent(1, "A")).unwrap();
    assert_eq!(
        s.start_conversation(conversation(30, 1, 901)),
        Err(StoreError::DanglingReference { field: Field::UserId, target_id: 901 })
    );
    s.start_conversation(conversation(30, 1, 900)).unwrap();
    assert_eq!(s.remove_user(900), Err(StoreError::ReferentialConflict { id: 900 }));
    assert_eq!(s.remove_user(901), Err(StoreError::NotFound { id: 901 }));
    s.delete_agent(1).unwrap();
    s.remove_user(900).unwrap();
    assert_eq!(s.users.len(), 0);
}

#[test]
fn knowledge_and_models_cascade() {
    let mut s = Store::new();
    s.create_knowledge_base(KnowledgeBase { id: 1, name: "kb".to_string(), kind: "docs".to_string(), config: String::new() })
        .unwrap();
    s.add_knowledge_item(KnowledgeItem {
        id: 2,
        knowledge_base_id: 1,
        kind: "page".to_string(),
        content: "text".to_string(),
        embedding: None,
        metadata: String::new(),
    })
    .unwrap();
    assert_eq!(s.get_knowledge_item(2).unwrap().content, "text");
    assert_eq!(
        s.add_knowledge_item(KnowledgeItem {
            id: 3,
            knowledge_base_id: 9,
            kind: "page".to_string(),
            content: String::new(),
            embedding: None,
            metadata: String::new(),
        }),
        Err(StoreError::DanglingReference { field: Field::KnowledgeBaseId, target_id: 9 })
    );
    s.create_model(LearningModel {
        id: 5,
        name: "m".to_string(),
        kind: "k".to_string(),
        version: "1".to_string(),
        config: String::new(),
        metrics: String::new(),
        last_trained_at: None,
    })
    .unwrap();
    s.add_training_example(TrainingExample {
        id: 6,
        model_id: 5,
        input: "in".to_string(),
        output: "out".to_string(),
        metadata: String::new(),
    })
    .unwrap();
    s.delete_knowledge_base(1).unwrap();
    assert_eq!(s.knowledge_items.len(), 0);
    assert_eq!(s.training_examples.len(), 1);
    s.delete_model(5).unwrap();
    assert_eq!(s.training_examples.len(), 0);
    assert_eq!(s.models.len(), 0);
    assert_eq!(s.delete_model(5), Err(StoreError::NotFound { id: 5 }));
}

#[test]
fn recall_stamps_last_access() {
    let mut s = Store::new();
    s.create_agent(agent(1, "A")).unwrap();
    s.store_memory(memory(50, 1)).unwrap();
    assert_eq!(s.get_memory(50).unwrap().last_accessed, None);
    s.recall_memory(50, 77).unwrap();
    let m = s.get_memory(50).unwrap();
    assert_eq!(m.last_accessed, Some(77));
    assert_eq!(m.embedding, Some(vec![1, 2, 3]));
    assert_eq!(s.recall_memory(51, 77), Err(StoreError::NotFound { id: 51 }));
    assert_eq!(s.get_conversation(3), None);
}

#[test]
fn deleting_a_conversation_removes_its_messages() {
    let mut s = Store::new();
    s.register_user(User { id: 900 }).unwrap();
    s.create_agent(agent(1, "A")).unwrap();
    s.start_conversation(conversation(30, 1, 900)).unwrap();
    s.start_conversation(conversation(31, 1, 900)).unwrap();
    s.append_message(40, 30, "user".to_string(), "hi".to_string(), String::new(), 1).unwrap();
    s.append_message(41, 31, "agent".to_string(), "hello".to_string(), String::new(), 2).unwrap();
    assert_eq!(
        s.append_message(42, 31, String::new(), "x".to_string(), String::new(), 3),
        Err(StoreError::Validation { field: Field::Role, reason: Reason::Empty })
    );
    s.delete_conversation(30).unwrap();
    assert_eq!(s.messages.iter().map(|m| m.id).collect::<Vec<_>>(), vec![41]);
    assert_eq!(s.get_conversation(31).unwrap().title, "chat");
    assert_eq!(s.delete_conversation(30), Err(StoreError::NotFound { id: 30 }));
}
