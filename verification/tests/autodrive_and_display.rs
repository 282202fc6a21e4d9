use miawk::accounts::AccountKind;
use miawk::autodrive::{
    appears_to_replay_existing_text, auto_drive_continuation, auto_drive_frontier_excerpt,
    auto_drive_decide, auto_drive_prompt, frontier_is_cuttable, is_auto_drive_meta_response,
    is_creative_writing_request, last_completed_user_message, normalized_auto_drive_text,
    open_questions, AutoDriveDecision,
};
use miawk::chat::{
    export_chat_markdown, export_heading_for_message, message_visible_text,
    push_auto_drive_status, ChatMessageKind, InboxItem, MessageItem,
};
use miawk::display::{
    account_subtitle, account_title, agent_accent_rgb, chat_message_class, reset_countdown,
    swarm_node_class, titlecase_label,
};
use miawk::forms::{parse_i64, AutoDriveMode};
use miawk::swarm::{SwarmNodeKind, SwarmNodeStatus};

fn msg(id: &str, kind: ChatMessageKind, text: &str, complete: bool) -> MessageItem {
    MessageItem {
        id: id.to_string(),
        kind,
        title: None,
        agent_label: None,
        text: text.to_string(),
        details: None,
        expanded: false,
        complete,
    }
}

fn accent_reference(label: &str) -> &'static str {
    const COLORS: [&str; 8] = [
        "255, 146, 196", "255, 196, 118", "143, 224, 255", "168, 255, 188",
        "205, 166, 255", "255, 162, 128", "138, 190, 255", "255, 220, 126",
    ];
    let hash = label.bytes().fold(0_u32, |acc, byte| acc.wrapping_mul(33).wrapping_add(byte as u32));
    COLORS[(hash as usize) % COLORS.len()]
}

#[test]
fn normalized_text_and_needles() {
    let text = "  Hello   WORLD\n[[inbox-question]] hidden?\nNext  line ";
    assert_eq!(normalized_auto_drive_text(text).into_iter().collect::<String>(), "hello world next line");
    assert!(is_creative_writing_request("Please write a POEM about cats"));
    assert!(!is_creative_writing_request("fix the build"));
    assert!(is_auto_drive_meta_response("The best move is to refactor."));
    assert!(!is_auto_drive_meta_response("Refactored the module."));
}

#[test]
fn frontier_excerpts() {
    assert_eq!(auto_drive_frontier_excerpt("one\n\ntwo\n\n\n\nthree  "), "two\n\nthree");
    assert_eq!(auto_drive_frontier_excerpt("  single paragraph  "), "single paragraph");
    let long = "x".repeat(800);
    assert_eq!(auto_drive_frontier_excerpt(&long), "x".repeat(700));
    assert!(frontier_is_cuttable(&long));
    let wide = "é".repeat(400);
    assert!(!frontier_is_cuttable(&format!("{wide}a")));
    assert!(frontier_is_cuttable(&wide));
}

#[test]
fn replays_are_detected() {
    let body = "word ".repeat(50);
    let snapshot = vec![
        msg("1", ChatMessageKind::Assistant, &format!("intro {body} end"), true),
        msg("2", ChatMessageKind::Assistant, &body, true),
    ];
    assert!(appears_to_replay_existing_text(&body, &snapshot));
    assert!(!appears_to_replay_existing_text(&body, &snapshot[1..].to_vec()));
    assert!(!appears_to_replay_existing_text("short", &snapshot));
}

#[test]
fn user_messages_and_questions() {
    let snapshot = vec![
        msg("u1", ChatMessageKind::User, "first", true),
        msg("a", ChatMessageKind::Assistant, "x", true),
        msg("u2", ChatMessageKind::User, "second", true),
        msg("u3", ChatMessageKind::User, "pending", false),
    ];
    assert_eq!(last_completed_user_message(&snapshot).as_deref(), Some("second"));
    let inbox = vec![
        InboxItem { id: "1".to_string(), source: "s".to_string(), text: "q".to_string(), answer_draft: String::new(), resolved: false },
        InboxItem { id: "2".to_string(), source: "s".to_string(), text: "q".to_string(), answer_draft: String::new(), resolved: true },
    ];
    assert_eq!(open_questions(&inbox), 1);
}

#[test]
fn auto_drive_decisions() {
    let answer = vec![msg("a", ChatMessageKind::Assistant, "done", true)];
    let (g, start, turns) = auto_drive_decide(false, true, Some(5), 3, 100, &answer, AutoDriveMode::Completion, "", "");
    assert_eq!((g, start, turns), (AutoDriveDecision::Reset, None, 0));
    let (g, start, turns) = auto_drive_decide(true, true, None, 0, 100, &answer, AutoDriveMode::Completion, "", "");
    assert_eq!((g, start, turns), (AutoDriveDecision::Proceed, Some(100), 1));
    let (g, _, _) = auto_drive_decide(true, true, None, 1, 100, &answer, AutoDriveMode::Completion, "2", "");
    assert_eq!(g, AutoDriveDecision::Stop("Stopped: reached the Auto Drive turn limit.".to_string()));
    let (g, _, _) = auto_drive_decide(true, true, Some(0), 0, 7_200, &answer, AutoDriveMode::Completion, "", "2");
    assert_eq!(g, AutoDriveDecision::Stop("Stopped: reached the Auto Drive runtime limit.".to_string()));
    let (g, _, _) = auto_drive_decide(true, true, None, 0, 0, &Vec::new(), AutoDriveMode::Completion, "", "");
    assert_eq!(g, AutoDriveDecision::Stop("Stopped: there is no completed assistant output to build on yet.".to_string()));
    let mut error = msg("e", ChatMessageKind::Status, "boom", true);
    error.title = Some("Error".to_string());
    let (g, _, _) = auto_drive_decide(true, true, None, 0, 0, &vec![answer[0].clone(), error], AutoDriveMode::OpenEnded, "", "");
    assert_eq!(g, AutoDriveDecision::Stop("Stopped: the last turn ended with an error.".to_string()));
    let stop = vec![msg("a", ChatMessageKind::Assistant, "ok\n[[auto-drive-stop]] shipped", true)];
    let (g, _, _) = auto_drive_decide(true, true, None, 0, 0, &stop, AutoDriveMode::Completion, "", "");
    assert_eq!(g, AutoDriveDecision::Stop("Stopped: shipped.".to_string()));
    let (g, _, _) = auto_drive_decide(true, true, None, 0, 0, &stop, AutoDriveMode::OpenEnded, "", "");
    assert_eq!(g, AutoDriveDecision::Proceed);
    let (_, _, turns) = auto_drive_decide(true, true, None, u32::MAX, 0, &answer, AutoDriveMode::Completion, "", "");
    assert_eq!(turns, u32::MAX);
}

#[test]
fn continuation_prompts() {
    let snapshot = vec![
        msg("u", ChatMessageKind::User, "write a story about a fox", true),
        msg("a1", ChatMessageKind::Assistant, "Once upon a time.\n\nThe fox ran.", true),
    ];
    let (prompt, status) = auto_drive_continuation(&snapshot, &Vec::new(), AutoDriveMode::OpenEnded, 3);
    assert_eq!(status, "Continuing the story from the latest frontier...");
    assert!(prompt.starts_with("Auto Drive supervisor review for cycle 3.\n\nLatest visible result:\nOnce upon a time.\n\nThe fox ran.\n\nContinue the story directly"));
    assert!(prompt.contains("Latest frontier:\nOnce upon a time.\n\nThe fox ran.\nThere are no open inbox questions right now."));
    let plain = vec![msg("a1", ChatMessageKind::Assistant, "Fixed it.", true), msg("a2", ChatMessageKind::Assistant, "Fixed it.", true)];
    let (_, status) = auto_drive_continuation(&plain, &Vec::new(), AutoDriveMode::Completion, 1);
    assert_eq!(status, "Replanning from the latest state...");
    let direct = auto_drive_prompt("Short answer", 2, false, false, false, false, false, AutoDriveMode::Completion, 7);
    assert_eq!(
        direct,
        "Auto Drive supervisor review for cycle 7.\n\nLatest visible result:\nShort answer\n\nReview the latest state and choose the single highest-value next step instead of repeating or summarizing old work.\nThere are 2 open inbox question(s). Keep going without waiting for the user unless an answer is truly required right now; if needed, state the assumption you are making and continue.\n\nTreat completion as a valid stopping condition. If the objective is truly complete or you are meaningfully blocked, emit `[[auto-drive-stop]] <reason>` on its own line, then give a short closing note. Otherwise, keep working toward completion."
    );
    let long = "y".repeat(1000);
    let cut = auto_drive_prompt(&long, 0, false, false, false, false, false, AutoDriveMode::OpenEnded, 1);
    assert!(cut.contains(&format!("{}...", "y".repeat(900))));
}

#[test]
fn exported_markdown() {
    assert_eq!(export_chat_markdown(&Vec::new(), &Vec::new()), "# MIAWK Chat Export\n\n_No messages in this chat yet._\n");
    let mut cmd = msg("c", ChatMessageKind::Command, "$ ls", true);
    cmd.details = Some("a\nb\n\n".to_string());
    let mut answer = msg("a", ChatMessageKind::Assistant, "Hi\n[[inbox-question]] Q?", true);
    answer.agent_label = Some("Agent 1".to_string());
    let messages = vec![
        msg("u", ChatMessageKind::User, " hello ", true),
        msg("s", ChatMessageKind::Status, "working", false),
        answer,
        cmd,
    ];
    let inbox = vec![InboxItem { id: "a:0".to_string(), source: "Agent 1".to_string(), text: "Q?".to_string(), answer_draft: String::new(), resolved: false }];
    assert_eq!(
        export_chat_markdown(&messages, &inbox),
        "# MIAWK Chat Export\n\n## Transcript\n\n### You\n\nhello\n\n### Agent 1\n\nHi\n\n### Brain · Command\n\n```sh\n\n$ ls\n\n```\n\n```text\n\na\nb\n\n```\n\n## Open Questions\n\n- **Agent 1**: Q?\n"
    );
}

#[test]
fn headings_and_visible_texts() {
    let mut r = msg("r", ChatMessageKind::Reasoning, "", false);
    assert_eq!(export_heading_for_message(&r), "Brain · Thinking");
    r.title = Some("Agent 2".to_string());
    assert_eq!(export_heading_for_message(&r), "Agent 2 · Thinking");
    assert_eq!(export_heading_for_message(&msg("s", ChatMessageKind::Status, "", true)), "Status");
    let a = msg("a", ChatMessageKind::Assistant, "x\n[[auto-drive-stop]]\n", true);
    assert_eq!(message_visible_text(&a), "x");
    let u = msg("u", ChatMessageKind::User, "x\n[[auto-drive-stop]]\n", true);
    assert_eq!(message_visible_text(&u), "x\n[[auto-drive-stop]]\n");
    let mut items = Vec::new();
    push_auto_drive_status(&mut items, "Replanning", "ad-1".to_string());
    assert_eq!(items[0].title.as_deref(), Some("Auto Drive"));
    assert!(items[0].complete);
}

#[test]
fn classes_and_accents() {
    let mut m = msg("m", ChatMessageKind::Command, "", true);
    assert_eq!(chat_message_class(&m), "message message-command");
    m.agent_label = Some("Agent 1".to_string());
    assert_eq!(chat_message_class(&m), "message message-command message-agent");
    assert_eq!(swarm_node_class(SwarmNodeKind::Agent, SwarmNodeStatus::Running, true), "swarm-node swarm-node-agent swarm-node-running swarm-node-selected");
    for label in ["Agent 1", "Brain", "", "Ünïcødé 🦊", "Agent 42"] {
        assert_eq!(agent_accent_rgb(label), accent_reference(label), "label {label:?}");
    }
}

#[test]
fn account_cards() {
    assert_eq!(account_title(AccountKind::ApiKey, &Some("sk-****-key".to_string()), &None, &"label".to_string()), "sk-****-key");
    assert_eq!(account_title(AccountKind::Chatgpt, &Some("sk".to_string()), &None, &"label".to_string()), "label");
    assert_eq!(account_subtitle(AccountKind::ApiKey, &Some("plus".to_string())), "API");
    assert_eq!(account_subtitle(AccountKind::Chatgpt, &Some("plus".to_string())), "Plus");
    assert_eq!(account_subtitle(AccountKind::Chatgpt, &None), "Account");
    assert_eq!(titlecase_label("ßtraße".to_string()), "SStraße");
    assert_eq!(titlecase_label(String::new()), "");
}

#[test]
fn countdowns() {
    assert_eq!(reset_countdown(None, 0), "--:--:--:--");
    assert_eq!(reset_countdown(Some("soon"), 0), "--:--:--:--");
    assert_eq!(reset_countdown(Some("100"), 200), "00");
    assert_eq!(reset_countdown(Some("3725"), 0), "01:02:05");
    assert_eq!(reset_countdown(Some("90061"), 0), "01:01:01:01");
    assert_eq!(reset_countdown(Some("8640000"), 0), "100:00:00:00");
    assert_eq!(parse_i64("-9223372036854775808"), Some(i64::MIN));
    assert_eq!(parse_i64("9223372036854775808"), None);
}
