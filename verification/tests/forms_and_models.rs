use miawk::forms::{chat_turn_settings, initial_context_window};
use miawk::forms::{
    attachment_kind_for_path, compact_limit_for_window, current_chat_model, cycle_effort,
    cycle_model, display_context_usage, display_context_window, display_effort_label,
    display_model_id_label, display_model_label, display_user_message, effort_label,
    fallback_model_by_id, model_supports_long_context, optional_limit_string,
    optional_limit_value, parse_i32, parse_optional_limit_input, parse_settings_form, parse_u32,
    parse_usize, preferred_effort_for_model, prompt_text_for_submission, reasoning_efforts,
    sanitize_settings_input, supported_ui_models, AutoDriveMode,
};
use miawk::runtime::{ChatAttachment, ChatAttachmentKind, ChatModelInfo, ChatReasoningEffortInfo};

fn model(id: &str, efforts: &[&str], default_effort: Option<&str>) -> ChatModelInfo {
    ChatModelInfo {
        id: id.to_string(),
        display_name: format!("{id} name"),
        description: String::new(),
        default_effort: default_effort.map(str::to_string),
        supported_efforts: efforts
            .iter()
            .map(|e| ChatReasoningEffortInfo { effort: e.to_string(), description: String::new() })
            .collect(),
        is_default: false,
    }
}

#[test]
fn whole_numbers_parse_like_std() {
    for text in ["0", "7", "+7", "4294967295", "4294967296", "", "+", "-1", " 5", "12a", "007", "99999999999999999999"] {
        assert_eq!(parse_u32(text), text.parse::<u32>().ok(), "u32 {text:?}");
        assert_eq!(parse_usize(text), text.parse::<usize>().ok(), "usize {text:?}");
        assert_eq!(parse_i32(text), text.parse::<i32>().ok(), "i32 {text:?}");
    }
    for text in ["-0", "-2147483648", "-2147483649", "2147483647", "2147483648", "-", "-+1", "+-1", "--1"] {
        assert_eq!(parse_i32(text), text.parse::<i32>().ok(), "i32 {text:?}");
    }
}

#[test]
fn optional_limits() {
    assert_eq!(parse_optional_limit_input("Turns", "  "), Ok(None));
    assert_eq!(parse_optional_limit_input("Turns", " 12 "), Ok(Some(12)));
    assert_eq!(parse_optional_limit_input("Turns", "x"), Err("Turns must be a whole number.".to_string()));
    assert_eq!(parse_optional_limit_input("Turns", "0"), Err("Turns must be greater than 0 or left blank.".to_string()));
    assert_eq!(optional_limit_value(" 3 "), Some(3));
    assert_eq!(optional_limit_value("0"), None);
    assert_eq!(optional_limit_value("abc"), None);
    assert_eq!(optional_limit_value(""), None);
    assert_eq!(optional_limit_string(Some(42)), "42");
    assert_eq!(optional_limit_string(None), "");
    assert_eq!(sanitize_settings_input("1a2 b3٤"), "123");
}

#[test]
fn settings_form_checks_fields_in_order() {
    let ok = parse_settings_form(" 8 ", "2", AutoDriveMode::OpenEnded, "", "5", "/ws".to_string()).unwrap();
    assert_eq!(ok.agent_max_threads, 8);
    assert_eq!(ok.agent_max_depth, 2);
    assert_eq!(ok.auto_drive_mode, "open-ended");
    assert_eq!(ok.auto_drive_max_turns, Some(5));
    assert_eq!(ok.auto_drive_max_runtime_hours, None);
    assert!(!ok.auto_drive_enabled);
    assert_eq!(ok.current_workspace_path, "/ws");
    let err = |t: &str, d: &str, h: &str, n: &str| parse_settings_form(t, d, AutoDriveMode::Completion, h, n, String::new()).unwrap_err();
    assert_eq!(err("x", "y", "", ""), "Agent threads must be a whole number.");
    assert_eq!(err("0", "y", "", ""), "Agent depth must be a whole number.");
    assert_eq!(err("0", "0", "", ""), "Agent threads must be at least 1.");
    assert_eq!(err("1", "-3", "", ""), "Agent depth must be at least 1.");
    assert_eq!(err("1", "1", "z", "0"), "Auto Drive max runtime must be a whole number.");
    assert_eq!(err("1", "1", "2", "0"), "Auto Drive max turns must be greater than 0 or left blank.");
}

#[test]
fn auto_drive_modes_round_trip() {
    assert_eq!(AutoDriveMode::from_stored(AutoDriveMode::OpenEnded.as_str()), AutoDriveMode::OpenEnded);
    assert_eq!(AutoDriveMode::from_stored(AutoDriveMode::Completion.as_str()), AutoDriveMode::Completion);
    assert_eq!(AutoDriveMode::from_stored("anything"), AutoDriveMode::Completion);
}

#[test]
fn effort_and_model_labels() {
    assert_eq!(effort_label("xhigh"), "XHigh");
    assert_eq!(effort_label("minimal"), "Minimal");
    assert_eq!(effort_label("weird"), "Medium");
    assert_eq!(display_effort_label("minimal"), "minimal");
    assert_eq!(display_effort_label("high"), "High");
    assert_eq!(display_model_id_label("gpt-5.4-mini"), "GPT-5.4 Mini");
    assert_eq!(display_model_id_label("other"), "other");
    assert_eq!(display_model_label(&model("other", &[], None)), "other name");
    assert_eq!(display_model_label(&model("gpt-5.4-pro", &[], None)), "GPT-5.4 Pro");
    assert!(model_supports_long_context("gpt-5.4"));
    assert!(!model_supports_long_context("gpt-5.4-mini"));
}

#[test]
fn attachments_and_prompts() {
    assert_eq!(attachment_kind_for_path("/tmp/Photo.JPG"), ChatAttachmentKind::Image);
    assert_eq!(attachment_kind_for_path("/tmp/notes.txt"), ChatAttachmentKind::File);
    assert_eq!(attachment_kind_for_path("/tmp/x.avif"), ChatAttachmentKind::Image);
    let atts = vec![
        ChatAttachment { name: "a.png".to_string(), path: "/a.png".to_string(), kind: ChatAttachmentKind::Image },
        ChatAttachment { name: "b.txt".to_string(), path: "/b.txt".to_string(), kind: ChatAttachmentKind::File },
    ];
    assert_eq!(prompt_text_for_submission("  ", &atts), "Please inspect the attached files.");
    assert_eq!(prompt_text_for_submission(" hi ", &atts), "hi");
    assert_eq!(prompt_text_for_submission("  ", &Vec::new()), "");
    assert_eq!(display_user_message(" hi ", &Vec::new()), "hi");
    assert_eq!(display_user_message("  ", &atts), "Attached: a.png, b.txt");
    assert_eq!(display_user_message(" hi ", &atts), "hi\n\nAttached: a.png, b.txt");
}

#[test]
fn context_numbers() {
    assert_eq!(compact_limit_for_window(1_000_000), 950_000);
    assert_eq!(compact_limit_for_window(258_400), 258_400);
    assert_eq!(display_context_window(258_400), 246_400);
    assert_eq!(display_context_window(5_000), 0);
    assert_eq!(display_context_usage(20_000), 8_000);
    assert_eq!(display_context_usage(100), 0);
}

#[test]
fn model_and_effort_pickers() {
    let models = vec![model("a", &[], None), model("b", &[], None), model("c", &[], None)];
    assert_eq!(cycle_model(&models, "b", 1).unwrap().id, "c");
    assert_eq!(cycle_model(&models, "b", -1).unwrap().id, "a");
    assert!(cycle_model(&models, "c", 1).is_none());
    assert_eq!(cycle_model(&models, "zzz", 1).unwrap().id, "b");
    assert!(cycle_model(&Vec::new(), "a", 1).is_none());
    assert_eq!(current_chat_model(&models, "c").unwrap().id, "c");
    assert!(current_chat_model(&models, "q").is_none());
    let m = model("m", &["low", "medium", "high"], Some("medium"));
    assert_eq!(cycle_effort(&m, "low", 1).unwrap().effort, "medium");
    assert_eq!(cycle_effort(&m, "unknown", 1).unwrap().effort, "high");
    assert!(cycle_effort(&m, "high", 1).is_none());
    let no_default = model("m", &["low", "medium"], None);
    assert_eq!(cycle_effort(&no_default, "unknown", 1).unwrap().effort, "medium");
    assert!(cycle_effort(&model("m", &[], None), "low", 1).is_none());
}

#[test]
fn preferred_efforts() {
    assert_eq!(preferred_effort_for_model(&model("m", &["low", "xhigh"], Some("low"))), "xhigh");
    assert_eq!(preferred_effort_for_model(&model("m", &["low", "high"], Some("high"))), "high");
    assert_eq!(preferred_effort_for_model(&model("m", &["low", "high"], None)), "low");
    assert_eq!(preferred_effort_for_model(&model("m", &[], None)), "xhigh");
}

#[test]
fn known_models_and_picker_list() {
    let pro = fallback_model_by_id("gpt-5.4-pro").unwrap();
    assert_eq!(pro.display_name, "GPT-5.4 Pro");
    assert_eq!(pro.default_effort.as_deref(), Some("medium"));
    assert_eq!(pro.supported_efforts.len(), 3);
    assert!(fallback_model_by_id("gpt-4").is_none());
    assert_eq!(reasoning_efforts(&vec!["a", "b"]).len(), 2);
    let mut live = model("gpt-5.4-mini", &["low"], None);
    live.description = "Small and fast".to_string();
    live.is_default = true;
    let list = supported_ui_models(&vec![live]);
    let ids: Vec<&str> = list.iter().map(|m| m.id.as_str()).collect();
    assert_eq!(ids, vec!["gpt-5.4-pro", "gpt-5.4", "gpt-5.4-mini", "gpt-5.4-nano"]);
    assert_eq!(list[2].description, "Small and fast");
    assert!(list[2].is_default);
    assert_eq!(list[2].supported_efforts.len(), 5);
    assert!(list[1].is_default);
    assert!(!list[3].is_default);
}

#[test]
fn pickers_step_back_to_where_they_stood() {
    let models = vec![model("a", &[], None), model("b", &[], None), model("c", &[], None)];
    let forward = cycle_model(&models, "a", 2).unwrap();
    assert_eq!(forward.id, "c");
    assert_eq!(cycle_model(&models, &forward.id, -2).unwrap().id, "a");
    // Unknown current model: the picker stood on the first one.
    let forward = cycle_model(&models, "zzz", 1).unwrap();
    assert_eq!(cycle_model(&models, &forward.id, -1).unwrap().id, "a");

    let m = model("m", &["low", "medium", "high"], Some("high"));
    let forward = cycle_effort(&m, "unknown", -2).unwrap();
    assert_eq!(forward.effort, "low");
    assert_eq!(cycle_effort(&m, &forward.effort, 2).unwrap().effort, "high");
}

#[test]
fn turn_settings_follow_the_pickers() {
    let s = chat_turn_settings("", "high", true, true);
    assert_eq!(s.model, "gpt-5.4");
    assert_eq!(s.effort.as_deref(), Some("high"));
    assert_eq!(s.service_tier.as_deref(), Some("fast"));
    assert!(s.long_context);
    let s = chat_turn_settings("gpt-5.4-mini", "low", false, true);
    assert_eq!(s.model, "gpt-5.4-mini");
    assert_eq!(s.service_tier, None);
    assert!(!s.long_context);
    assert_eq!(initial_context_window(true), 1_000_000);
    assert_eq!(initial_context_window(false), 258_400);
}
