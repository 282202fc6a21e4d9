use miawk::runtime::{ChatAttachment, ChatAttachmentKind, ChatStreamEvent, ChatTurnSettings, CollabAgentStateInfo};
use miawk::swarm::{SwarmNodeKind, SwarmNodeStatus, SwarmProjection};

fn settings() -> ChatTurnSettings {
    ChatTurnSettings { model: "gpt-5.4".to_string(), effort: Some("high".to_string()), service_tier: None, long_context: false }
}

fn spawn(item: &str, receiver: &str, complete: bool) -> ChatStreamEvent {
    ChatStreamEvent::CollabTool {
        item_id: item.to_string(),
        title: "Spawned agent".to_string(),
        detail: "task".to_string(),
        agent_label: None,
        tool: "spawnAgent".to_string(),
        sender_thread_id: "main".to_string(),
        receiver_thread_ids: vec![receiver.to_string()],
        model: Some("gpt-5.4-mini".to_string()),
        reasoning_effort: None,
        agent_states: vec![CollabAgentStateInfo { thread_id: receiver.to_string(), status: "running".to_string(), message: None }],
        complete,
    }
}

#[test]
fn new_projection_stands_by() {
    let p = SwarmProjection::new();
    assert_eq!(p.next_turn_index(), 1);
    let plan = p.snapshot_plan();
    assert_eq!(plan.total_nodes, 1);
    assert_eq!(plan.nodes[0].kind, SwarmNodeKind::Brain);
    assert_eq!(plan.nodes[0].status, SwarmNodeStatus::Idle);
    assert_eq!(plan.active_node_id, None);
    assert_eq!(p.active_agent_count(), 0);
}

#[test]
fn turns_are_numbered_and_finished() {
    let mut p = SwarmProjection::new();
    let atts = vec![ChatAttachment { name: "a.png".to_string(), path: "/a.png".to_string(), kind: ChatAttachmentKind::Image }];
    let id = p.start_turn("  write a poem ", &atts, &settings());
    assert_eq!(id, "turn-local-1");
    assert_eq!(p.next_turn_index(), 2);
    assert_eq!(p.snapshot_plan().nodes[0].status, SwarmNodeStatus::Queued);
    p.apply_chat_event(&ChatStreamEvent::TurnStarted { turn_id: "srv".to_string() });
    assert_eq!(p.snapshot_plan().nodes[0].status, SwarmNodeStatus::Running);
    p.apply_chat_event(&ChatStreamEvent::Completed);
    assert_eq!(p.snapshot_plan().nodes[0].status, SwarmNodeStatus::Idle);
    assert_eq!(p.start_turn("next", &Vec::new(), &settings()), "turn-local-2");
}

#[test]
fn agents_appear_and_are_counted() {
    let mut p = SwarmProjection::new();
    p.start_turn("go", &Vec::new(), &settings());
    p.apply_chat_event(&ChatStreamEvent::ThreadReady { thread_id: "main".to_string() });
    p.apply_chat_event(&spawn("i1", "child-abcd1234", false));
    assert_eq!(p.active_agent_count(), 1);
    let tree = p.active_agent_tree();
    assert_eq!(tree.len(), 1);
    assert_eq!(tree[0].model.as_deref(), Some("gpt-5.4-mini"));
    let plan = p.snapshot_plan();
    assert_eq!(plan.total_nodes, 2);
    assert_eq!(plan.edges.len(), 1);
    assert_eq!(plan.edges[0].from_id, plan.root_id);
    assert_eq!(plan.active_node_id.as_deref(), Some(tree[0].id.as_str()));
}

#[test]
fn interrupted_turns_stay_interrupted() {
    let mut p = SwarmProjection::new();
    p.start_turn("go", &Vec::new(), &settings());
    p.interrupt_active();
    assert_eq!(p.snapshot_plan().nodes[0].status, SwarmNodeStatus::Interrupted);
    p.apply_chat_event(&ChatStreamEvent::Completed);
    assert_eq!(p.snapshot_plan().nodes[0].status, SwarmNodeStatus::Idle);
    let mut q = SwarmProjection::new();
    q.interrupt_active();
    assert_eq!(q.snapshot_plan().nodes[0].status, SwarmNodeStatus::Idle);
}

#[test]
fn errors_fail_the_turn() {
    let mut p = SwarmProjection::new();
    p.start_turn("go", &Vec::new(), &settings());
    p.apply_chat_event(&ChatStreamEvent::Error { message: "boom".to_string() });
    let root = &p.snapshot_plan().nodes[0];
    assert_eq!(root.status, SwarmNodeStatus::Failed);
    assert_eq!(root.detail, "boom");
}
