use miawk::chat::{
    append_chat_delta, append_command_output, append_or_replace_status, apply_event_to_transcript,
    complete_active_status_messages, ensure_command_message, extract_auto_drive_stop_reason,
    extract_inbox_questions, mark_message_done, source_label_for_message,
    strip_assistant_protocol_lines, toggle_command_message, upsert_activity_message,
    upsert_inbox_items_from_message, ChatMessageKind, InboxItem, MessageItem,
};
use miawk::runtime::ChatStreamEvent;

fn message(id: &str, kind: ChatMessageKind, text: &str, complete: bool) -> MessageItem {
    MessageItem {
        id: id.to_string(),
        kind,
        title: None,
        agent_label: None,
        text: text.to_string(),
        details: None,
        expanded: false,
        complete,
    }
}

#[test]
fn status_lines_are_replaced_in_place() {
    let mut items = vec![message("s1", ChatMessageKind::Status, "Thinking...", false)];
    append_or_replace_status(&mut items, "Running", "s2".to_string());
    assert_eq!(items.len(), 1);
    assert_eq!(items[0].text, "Running");
    assert_eq!(items[0].id, "s1");
    items[0].complete = true;
    append_or_replace_status(&mut items, "Again", "s3".to_string());
    assert_eq!(items.len(), 2);
    assert_eq!(items[1].id, "s3");
    assert!(!items[1].complete);
}

#[test]
fn open_status_lines_are_dropped() {
    let mut items = vec![
        message("a", ChatMessageKind::Status, "open", false),
        message("b", ChatMessageKind::Assistant, "hi", false),
        message("c", ChatMessageKind::Status, "done", true),
        message("d", ChatMessageKind::Status, "open", false),
    ];
    complete_active_status_messages(&mut items);
    let ids: Vec<&str> = items.iter().map(|m| m.id.as_str()).collect();
    assert_eq!(ids, vec!["b", "c"]);
}

#[test]
fn commands_and_their_output() {
    let mut items = Vec::new();
    ensure_command_message(&mut items, "cmd", Some("Agent 1".to_string()), "ls -la");
    assert_eq!(items[0].text, "$ ls -la");
    assert_eq!(items[0].details.as_deref(), Some(""));
    assert_eq!(items[0].agent_label.as_deref(), Some("Agent 1"));
    append_command_output(&mut items, "cmd", "a\n");
    append_command_output(&mut items, "cmd", "b\n");
    append_command_output(&mut items, "other", "ignored");
    assert_eq!(items[0].details.as_deref(), Some("a\nb\n"));
    assert_eq!(items.len(), 1);
    toggle_command_message(&mut items, "cmd");
    assert!(items[0].expanded);
    toggle_command_message(&mut items, "cmd");
    assert!(!items[0].expanded);
    ensure_command_message(&mut items, "cmd", None, "pwd");
    assert_eq!(items[0].text, "$ pwd");
    assert_eq!(items[0].details.as_deref(), Some("a\nb\n"));
    assert_eq!(items[0].title, None);
}

#[test]
fn empty_command_output_does_not_open() {
    let mut items = Vec::new();
    ensure_command_message(&mut items, "cmd", None, "true");
    toggle_command_message(&mut items, "cmd");
    assert!(!items[0].expanded);
}

#[test]
fn activities_are_upserted() {
    let mut items = Vec::new();
    upsert_activity_message(&mut items, "act", "Searching", None, "rust verus", false);
    upsert_activity_message(&mut items, "act", "Searched", Some("Agent 2".to_string()), "rust verus", true);
    assert_eq!(items.len(), 1);
    assert_eq!(items[0].title.as_deref(), Some("Searched"));
    assert_eq!(items[0].agent_label.as_deref(), Some("Agent 2"));
    assert!(items[0].complete);
    assert_eq!(items[0].kind, ChatMessageKind::Activity);
}

#[test]
fn deltas_accumulate_and_keep_titles() {
    let mut items = Vec::new();
    append_chat_delta(&mut items, "m", ChatMessageKind::Assistant, Some("Brain".to_string()), None, "Hel");
    append_chat_delta(&mut items, "m", ChatMessageKind::Assistant, Some("Other".to_string()), Some("Agent".to_string()), "lo");
    assert_eq!(items.len(), 1);
    assert_eq!(items[0].text, "Hello");
    assert_eq!(items[0].title.as_deref(), Some("Brain"));
    assert_eq!(items[0].agent_label.as_deref(), Some("Agent"));
    mark_message_done(&mut items, "m");
    assert!(items[0].complete);
}

#[test]
fn stream_events_update_the_transcript() {
    let mut items = Vec::new();
    apply_event_to_transcript(&mut items, &ChatStreamEvent::Status { message: "Thinking...".to_string() }, "st".to_string());
    apply_event_to_transcript(&mut items, &ChatStreamEvent::ReasoningDelta { item_id: "r".to_string(), title: None, delta: "hmm".to_string() }, "x".to_string());
    assert_eq!(items.len(), 1);
    assert_eq!(items[0].kind, ChatMessageKind::Reasoning);
    assert_eq!(items[0].title.as_deref(), Some("Thinking"));
    assert_eq!(items[0].agent_label, None);
    apply_event_to_transcript(&mut items, &ChatStreamEvent::AssistantDelta { item_id: "a".to_string(), title: Some("Brain".to_string()), delta: "Hi".to_string() }, "x".to_string());
    apply_event_to_transcript(&mut items, &ChatStreamEvent::ItemDone { item_id: "a".to_string() }, "x".to_string());
    assert!(items[1].complete);
    apply_event_to_transcript(&mut items, &ChatStreamEvent::Error { message: "boom".to_string() }, "err".to_string());
    let last = items.last().unwrap();
    assert_eq!(last.id, "err");
    assert_eq!(last.title.as_deref(), Some("Error"));
    assert_eq!(last.text, "boom");
    assert!(last.complete);
    apply_event_to_transcript(&mut items, &ChatStreamEvent::Status { message: "Working".to_string() }, "st2".to_string());
    apply_event_to_transcript(&mut items, &ChatStreamEvent::Completed, "x".to_string());
    assert!(items.iter().all(|m| !(m.kind == ChatMessageKind::Status && !m.complete)));
    let before = items.len();
    apply_event_to_transcript(&mut items, &ChatStreamEvent::TurnStarted { turn_id: "t".to_string() }, "x".to_string());
    assert_eq!(items.len(), before);
}

#[test]
fn inbox_questions_are_read() {
    let text = "Intro\n[[inbox-question]] Which colour?\n  [[inbox-question]]   \n[[inbox-question]] Partial";
    assert_eq!(extract_inbox_questions(text, false), vec!["Which colour?"]);
    assert_eq!(extract_inbox_questions(text, true), vec!["Which colour?", "Partial"]);
    assert_eq!(extract_inbox_questions("[[inbox-question]] Done?\n", false), vec!["Done?"]);
    assert!(extract_inbox_questions("", true).is_empty());
}

#[test]
fn stop_reasons_are_read() {
    assert_eq!(extract_auto_drive_stop_reason("work\n[[auto-drive-stop]] all done\n", false).as_deref(), Some("all done"));
    assert_eq!(extract_auto_drive_stop_reason("[[auto-drive-stop]]", true).as_deref(), Some("the objective appears complete"));
    assert_eq!(extract_auto_drive_stop_reason("[[auto-drive-stop]] partial", false), None);
    assert_eq!(extract_auto_drive_stop_reason("nothing here", true), None);
}

#[test]
fn protocol_lines_are_hidden() {
    let text = "  Answer line\r\n[[inbox-question]] Q?\nMore\n[[auto-drive-stop]] done\n\n";
    assert_eq!(strip_assistant_protocol_lines(text), "Answer line\nMore");
    assert_eq!(strip_assistant_protocol_lines("a\r\nb"), "a\nb");
}

#[test]
fn message_sources() {
    let mut m = message("m", ChatMessageKind::Assistant, "", true);
    assert_eq!(source_label_for_message(&m), "Brain");
    m.title = Some("Title".to_string());
    assert_eq!(source_label_for_message(&m), "Title");
    m.agent_label = Some("Agent 3".to_string());
    assert_eq!(source_label_for_message(&m), "Agent 3");
}

#[test]
fn inbox_items_follow_assistant_questions() {
    let mut inbox: Vec<InboxItem> = Vec::new();
    let mut m = message("m1", ChatMessageKind::Assistant, "[[inbox-question]] First?\n[[inbox-question]] Second?\n", true);
    m.agent_label = Some("Agent 1".to_string());
    upsert_inbox_items_from_message(&mut inbox, &m, false);
    assert_eq!(inbox.len(), 2);
    assert_eq!(inbox[0].id, "m1:0");
    assert_eq!(inbox[1].id, "m1:1");
    assert_eq!(inbox[1].source, "Agent 1");
    inbox[0].answer_draft = "draft".to_string();
    m.text = "[[inbox-question]] First, reworded?\n".to_string();
    upsert_inbox_items_from_message(&mut inbox, &m, false);
    assert_eq!(inbox.len(), 2);
    assert_eq!(inbox[0].text, "First, reworded?");
    assert_eq!(inbox[0].answer_draft, "draft");
    let user = message("u", ChatMessageKind::User, "[[inbox-question]] ignored?\n", true);
    upsert_inbox_items_from_message(&mut inbox, &user, true);
    assert_eq!(inbox.len(), 2);
}

#[test]
fn taking_a_message_into_the_inbox_twice_changes_nothing() {
    let message = MessageItem {
        id: "a1".to_string(),
        kind: ChatMessageKind::Assistant,
        title: None,
        agent_label: Some("Agent 1".to_string()),
        text: "Working.\n[[inbox-question]] Which port?\n[[inbox-question]] Keep logs?\nDone.".to_string(),
        details: None,
        expanded: false,
        complete: true,
    };
    let mut once: Vec<InboxItem> = Vec::new();
    upsert_inbox_items_from_message(&mut once, &message, true);
    let mut twice = once.clone();
    upsert_inbox_items_from_message(&mut twice, &message, true);
    assert_eq!(once.len(), 2);
    assert_eq!(once, twice);
}
