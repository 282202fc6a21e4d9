use miawk::catalog::{mock_model_rows, ModelAccess};
use miawk::chat::{ChatMessageKind, MessageItem};
use miawk::display::message_agent_style;
use miawk::autodrive::auto_drive_can_continue;
use miawk::forms::{
    context_usage_multiplier, effort_tone_class, fallback_gpt54_model, format_usage_multiplier,
};
use miawk::markdown::render_markdown_html;

#[test]
fn models_table_is_most_intelligent_first() {
    let rows = mock_model_rows();
    let names: Vec<&str> = rows.iter().map(|r| r.name).collect();
    assert_eq!(names, vec!["GPT-5.4 Pro", "GPT-5.4", "GPT-5.4 Mini", "GPT-5.4 Nano"]);
    assert_eq!(rows[0].access, ModelAccess::Api);
    assert_eq!(rows[1].access, ModelAccess::Both);
    assert_eq!(rows[3].speed, 5);
    assert!(rows[1].long_context && !rows[2].long_context);
    assert_eq!(rows[0].reasoning, "Medium, High, XHigh");
}

#[test]
fn effort_tone_classes() {
    assert_eq!(effort_tone_class("none"), "effort-title effort-title-none");
    assert_eq!(effort_tone_class("minimal"), "effort-title effort-title-minimal");
    assert_eq!(effort_tone_class("xhigh"), "effort-title effort-title-xhigh");
    assert_eq!(effort_tone_class("medium"), "effort-title effort-title-medium");
    assert_eq!(effort_tone_class("turbo"), "effort-title effort-title-medium");
}

#[test]
fn default_chat_model_is_gpt54() {
    let m = fallback_gpt54_model();
    assert_eq!(m.id, "gpt-5.4");
    assert_eq!(m.display_name, "GPT-5.4");
    assert_eq!(m.default_effort.as_deref(), Some("none"));
    assert!(m.is_default);
    let efforts: Vec<&str> = m.supported_efforts.iter().map(|e| e.effort.as_str()).collect();
    assert_eq!(efforts, vec!["none", "low", "medium", "high", "xhigh"]);
}

fn message(agent_label: Option<&str>) -> MessageItem {
    MessageItem {
        id: "m".to_string(),
        kind: ChatMessageKind::Assistant,
        title: None,
        agent_label: agent_label.map(str::to_string),
        text: String::new(),
        details: None,
        expanded: false,
        complete: true,
    }
}

#[test]
fn agent_messages_get_their_accent() {
    assert_eq!(message_agent_style(&message(None)), None);
    // "a" hashes to 97, which picks the second colour.
    assert_eq!(message_agent_style(&message(Some("a"))), Some("--agent-rgb: 255, 196, 118".to_string()));
}

#[test]
fn markdown_renders_headings_and_emphasis() {
    assert_eq!(render_markdown_html("# Hi\n\n**bold**"), "<h1>Hi</h1>\n<p><strong>bold</strong></p>\n");
}

#[test]
fn markdown_links_are_marked_noopener() {
    assert_eq!(
        render_markdown_html("[x](https://example.com)"),
        "<p><a href=\"https://example.com\" rel=\"noopener noreferrer\">x</a></p>\n"
    );
}

#[test]
fn markdown_drops_scripts() {
    let html = render_markdown_html("x <script>alert(1)</script> y");
    assert!(!html.contains("<script"));
    assert!(!html.contains("alert"));
    assert!(html.starts_with("<p>x "));
}

#[test]
fn markdown_keeps_class_attributes() {
    let html = render_markdown_html("```rust\nfn main() {}\n```");
    assert_eq!(html, "<pre><code class=\"language-rust\">fn main() {}\n</code></pre>\n");
}


#[test]
fn usage_multiplier_counts_fast_mode_and_long_context() {
    assert_eq!(context_usage_multiplier(false, 258_400, 300_000), 10);
    assert_eq!(context_usage_multiplier(true, 258_400, 300_000), 15);
    assert_eq!(context_usage_multiplier(false, 1_000_000, 258_400), 10);
    assert_eq!(context_usage_multiplier(false, 1_000_000, 258_401), 20);
    assert_eq!(context_usage_multiplier(true, 1_000_000, 500_000), 30);
}

#[test]
fn usage_multiplier_text() {
    assert_eq!(format_usage_multiplier(10), "1x");
    assert_eq!(format_usage_multiplier(15), "1.5x");
    assert_eq!(format_usage_multiplier(20), "2x");
    assert_eq!(format_usage_multiplier(30), "3x");
}

fn answer(text: &str, complete: bool) -> MessageItem {
    MessageItem {
        id: "a".to_string(),
        kind: ChatMessageKind::Assistant,
        title: None,
        agent_label: None,
        text: text.to_string(),
        details: None,
        expanded: false,
        complete,
    }
}

#[test]
fn auto_drive_needs_a_finished_answer() {
    assert!(!auto_drive_can_continue(&Vec::new()));
    assert!(!auto_drive_can_continue(&vec![answer("draft", false)]));
    assert!(auto_drive_can_continue(&vec![answer("Done with step one.", true)]));
}

#[test]
fn auto_drive_refuses_a_cut_inside_a_character() {
    // Both answers are one paragraph of 701 bytes, whose last 700 bytes
    // start at byte 1: after an `a` in the first, inside `é` in the second.
    let text = format!("{}é", "a".repeat(699));
    assert!(auto_drive_can_continue(&vec![answer(&text, true)]));
    let text = format!("é{}", "a".repeat(699));
    assert!(!auto_drive_can_continue(&vec![answer(&text, true)]));
}
