use miawk::runtime::{ChatStreamEvent, ChatTurnSettings, CollabAgentStateInfo};
use miawk::swarm::{SwarmAgentTreeNode, SwarmNodeKind, SwarmNodeStatus, SwarmProjection};

fn settings() -> ChatTurnSettings {
    ChatTurnSettings { model: "gpt-5.4".to_string(), effort: None, service_tier: None, long_context: false }
}

fn spawn_from(item: &str, sender: &str, receiver: &str) -> ChatStreamEvent {
    ChatStreamEvent::CollabTool {
        item_id: item.to_string(),
        title: "Spawned agent".to_string(),
        detail: "task".to_string(),
        agent_label: None,
        tool: "spawnAgent".to_string(),
        sender_thread_id: sender.to_string(),
        receiver_thread_ids: vec![receiver.to_string()],
        model: None,
        reasoning_effort: None,
        agent_states: vec![CollabAgentStateInfo { thread_id: receiver.to_string(), status: "running".to_string(), message: None }],
        complete: false,
    }
}

fn flatten(trees: &[SwarmAgentTreeNode], out: &mut Vec<String>) {
    for t in trees {
        out.push(t.id.clone());
        flatten(&t.children, out);
    }
}

fn tree_ids(p: &SwarmProjection) -> Vec<String> {
    let mut ids = Vec::new();
    flatten(&p.active_agent_tree(), &mut ids);
    ids
}

fn nested_projection() -> SwarmProjection {
    let mut p = SwarmProjection::new();
    p.start_turn("go", &Vec::new(), &settings());
    p.apply_chat_event(&ChatStreamEvent::ThreadReady { thread_id: "main".to_string() });
    p.apply_chat_event(&spawn_from("i1", "main", "thread-a"));
    p.apply_chat_event(&spawn_from("i2", "thread-a", "thread-b"));
    p.apply_chat_event(&spawn_from("i3", "main", "thread-c"));
    p
}

#[test]
fn nested_agents_form_a_tree_without_repeats() {
    let p = nested_projection();
    let trees = p.active_agent_tree();
    assert_eq!(trees.len(), 2);
    assert_eq!(trees[0].id, "agent-thread-a");
    assert_eq!(trees[0].children.len(), 1);
    assert_eq!(trees[0].children[0].id, "agent-thread-b");
    assert_eq!(trees[1].id, "agent-thread-c");
    let ids = tree_ids(&p);
    let mut sorted = ids.clone();
    sorted.sort();
    sorted.dedup();
    assert_eq!(sorted.len(), ids.len());
    assert_eq!(ids.len(), p.active_agent_count());
}

#[test]
fn each_thread_keeps_one_agent_node() {
    let mut p = nested_projection();
    p.apply_chat_event(&ChatStreamEvent::AgentThread { thread_id: "thread-b".to_string(), label: "B".to_string() });
    p.apply_chat_event(&spawn_from("i4", "main", "thread-b"));
    let agents: Vec<String> = p
        .snapshot_plan()
        .nodes
        .iter()
        .filter(|n| n.kind == SwarmNodeKind::Agent)
        .map(|n| n.id.clone())
        .collect();
    assert_eq!(agents.iter().filter(|id| id.as_str() == "agent-thread-b").count(), 1);
    assert_eq!(agents.len(), 3);
    let ids = tree_ids(&p);
    assert_eq!(ids.iter().filter(|id| id.as_str() == "agent-thread-b").count(), 1);
    assert_eq!(ids.len(), 3);
}

#[test]
fn a_moved_agent_is_shown_under_its_new_parent() {
    let mut p = nested_projection();
    p.apply_chat_event(&spawn_from("i5", "thread-c", "thread-b"));
    let trees = p.active_agent_tree();
    assert_eq!(trees.len(), 2);
    assert_eq!(trees[0].children.len(), 0);
    assert_eq!(trees[1].id, "agent-thread-c");
    assert_eq!(trees[1].children.len(), 1);
    assert_eq!(trees[1].children[0].id, "agent-thread-b");
}

#[test]
fn starting_a_turn_keeps_the_agent_tree_and_count() {
    let mut p = nested_projection();
    let before = tree_ids(&p);
    let count = p.active_agent_count();
    p.apply_chat_event(&ChatStreamEvent::Completed);
    let long_prompt = "x".repeat(200);
    p.start_turn(&long_prompt, &Vec::new(), &settings());
    assert_eq!(tree_ids(&p), before);
    assert_eq!(p.active_agent_count(), count);
    let brain = &p.snapshot_plan().nodes[0];
    assert!(brain.detail.chars().count() <= 79);
    assert!(brain.detail.ends_with('…'));
}

#[test]
fn snapshot_counts_the_same_active_agents() {
    let mut p = nested_projection();
    p.apply_chat_event(&ChatStreamEvent::CollabTool {
        item_id: "i6".to_string(),
        title: "Wait".to_string(),
        detail: String::new(),
        agent_label: None,
        tool: "wait".to_string(),
        sender_thread_id: "main".to_string(),
        receiver_thread_ids: Vec::new(),
        model: None,
        reasoning_effort: None,
        agent_states: vec![CollabAgentStateInfo { thread_id: "thread-c".to_string(), status: "completed".to_string(), message: None }],
        complete: true,
    });
    let plan = p.snapshot_plan();
    let shown = plan
        .nodes
        .iter()
        .filter(|n| n.kind == SwarmNodeKind::Agent)
        .filter(|n| matches!(n.status, SwarmNodeStatus::Queued | SwarmNodeStatus::Running | SwarmNodeStatus::Waiting))
        .count();
    assert_eq!(shown, p.active_agent_count());
    assert_eq!(shown, 2);
}

#[test]
fn agents_on_an_active_cycle_are_left_out() {
    let mut p = SwarmProjection::new();
    p.start_turn("go", &Vec::new(), &settings());
    p.apply_chat_event(&spawn_from("i1", "main", "thread-a"));
    p.apply_chat_event(&spawn_from("i2", "thread-a", "thread-b"));
    p.apply_chat_event(&spawn_from("i3", "thread-b", "thread-a"));
    assert_eq!(p.active_agent_count(), 2);
    assert!(p.active_agent_tree().is_empty());
}
