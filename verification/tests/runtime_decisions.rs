use miawk::codex::{binary_file_name, read_codex_version, release_asset_name, release_tag_candidates};
use miawk::json::{JsonMember, JsonNumber, JsonValue};
use miawk::runtime::ChatStreamEvent;
use miawk::settings::{
    app_server_args, app_server_limits, app_server_url, running_server_verdict, AppSettings,
    RunningServer, ServerVerdict, SettingsService,
};
use miawk::stream::{
    collab_tool_title, error_mentions_missing_thread, extract_latest_assistant_reply,
    models_from_list_response, prefix_title, should_failover_account,
};
use miawk::turn::{LabelMap, TurnProgress, TurnWatch};
use std::path::PathBuf;

fn json(v: serde_json::Value) -> JsonValue {
    match v {
        serde_json::Value::Null => JsonValue::Null,
        serde_json::Value::Bool(b) => JsonValue::Bool(b),
        serde_json::Value::Number(n) => JsonValue::Number(if let Some(u) = n.as_u64() {
            JsonNumber::Unsigned(u)
        } else if let Some(i) = n.as_i64() {
            JsonNumber::Negative(i)
        } else {
            JsonNumber::Fractional
        }),
        serde_json::Value::String(s) => JsonValue::Str(s),
        serde_json::Value::Array(xs) => JsonValue::Array(xs.into_iter().map(json).collect()),
        serde_json::Value::Object(ms) => JsonValue::Object(
            ms.into_iter().map(|(key, value)| JsonMember { key, value: json(value) }).collect(),
        ),
    }
}

fn parse(text: &str) -> JsonValue {
    json(serde_json::from_str(text).unwrap())
}

#[test]
fn release_tags_and_assets() {
    assert_eq!(release_tag_candidates("0.46.0"), vec!["0.46.0", "rust-v0.46.0"]);
    assert_eq!(release_tag_candidates("rust-v0.46.0"), vec!["rust-v0.46.0"]);
    assert_eq!(release_asset_name("linux", "x86_64").unwrap(), "codex-x86_64-unknown-linux-gnu.tar.gz");
    assert_eq!(release_asset_name("macos", "aarch64").unwrap(), "codex-aarch64-apple-darwin.tar.gz");
    assert_eq!(release_asset_name("windows", "aarch64").unwrap(), "codex-aarch64-pc-windows-msvc.exe");
    assert_eq!(release_asset_name("freebsd", "x86_64").unwrap_err(), "unsupported Codex platform target: freebsd/x86_64");
    assert_eq!(binary_file_name(true), "codex.exe");
    assert_eq!(binary_file_name(false), "codex");
}

#[test]
fn pinned_version_is_read_from_the_manifest() {
    let manifest = "[package]\nname = \"miawk\"\nversion = \"0.1.0\"\n\n[package.metadata.codex]\n# pinned\nversion = \"0.46.0\"\n";
    assert_eq!(read_codex_version(manifest).as_deref(), Some("0.46.0"));
    assert_eq!(read_codex_version("[package]\nversion = \"1\"\n"), None);
    assert_eq!(read_codex_version("[package.metadata.codex]\r\n  version=\"\"rust-v1\"\"  \r\n").as_deref(), Some("rust-v1"));
    assert_eq!(read_codex_version("[package.metadata.codex]\nname = \"x\"\n[other]\nversion = \"2\"\n"), None);
    assert_eq!(read_codex_version("[package.metadata.codex]\nversion = 0.5"), Some("0.5".to_string()));
}

#[test]
fn settings_defaults_and_paths() {
    let s = AppSettings::with_workspace("/home/me/MIAWK/General".to_string());
    assert_eq!(s.agent_max_threads, 16);
    assert_eq!(s.agent_max_depth, 1);
    assert!(!s.auto_drive_enabled);
    assert_eq!(s.auto_drive_mode, "completion");
    let service = SettingsService::new(PathBuf::from("/data"));
    assert_eq!(service.path(), PathBuf::from("/data/settings.json"));
    assert_eq!(service.current_workspace_path(Ok(s)).unwrap(), PathBuf::from("/home/me/MIAWK/General"));
    assert_eq!(service.current_workspace_path(Err("bad".to_string())).unwrap_err(), "bad");
}

#[test]
fn app_server_launch() {
    let mut s = AppSettings::with_workspace(String::new());
    s.agent_max_threads = 0;
    s.agent_max_depth = -4;
    assert_eq!(app_server_limits(&s), (1, 1));
    s.agent_max_threads = 6;
    s.agent_max_depth = 3;
    assert_eq!(app_server_limits(&s), (6, 3));
    assert_eq!(app_server_url(4123), "ws://127.0.0.1:4123");
    assert_eq!(
        app_server_args(6, 3, false, 4123),
        vec!["-c", "agents.max_threads=6", "-c", "agent_max_depth=3", "app-server", "--listen", "ws://127.0.0.1:4123"]
    );
    assert_eq!(
        app_server_args(1, -2, true, 80),
        vec![
            "-c", "agents.max_threads=1", "-c", "agent_max_depth=-2", "-c", "model_context_window=1000000",
            "-c", "model_auto_compact_token_limit=950000", "app-server", "--listen", "ws://127.0.0.1:80",
        ]
    );
}

#[test]
fn running_servers_are_judged() {
    let running = RunningServer { account_id: "a".to_string(), long_context: false, agent_max_threads: 4, agent_max_depth: 1 };
    assert_eq!(running_server_verdict(true, &Some("b".to_string()), &running, true, 1, 1), ServerVerdict::Forget);
    assert_eq!(running_server_verdict(false, &Some("b".to_string()), &running, false, 4, 1), ServerVerdict::Replace);
    assert_eq!(running_server_verdict(false, &None, &running, true, 4, 1), ServerVerdict::Replace);
    assert_eq!(running_server_verdict(false, &Some("a".to_string()), &running, false, 5, 1), ServerVerdict::Replace);
    assert_eq!(running_server_verdict(false, &Some("a".to_string()), &running, false, 4, 1), ServerVerdict::Probe);
    assert_eq!(running_server_verdict(false, &None, &running, false, 4, 1), ServerVerdict::Probe);
}

#[test]
fn model_lists_are_read() {
    let response = parse(r#"{"data":[
        {"id":"gpt-5.4","displayName":"GPT-5.4","description":"Main","defaultReasoningEffort":"none",
         "supportedReasoningEfforts":[{"reasoningEffort":"low","description":"Fast"},{"description":"no effort"},{"reasoningEffort":"high"}],
         "isDefault":true},
        {"displayName":"no id"},
        {"id":"bare"}
    ]}"#);
    let models = models_from_list_response(&response).unwrap();
    assert_eq!(models.len(), 2);
    assert_eq!(models[0].supported_efforts.len(), 2);
    assert_eq!(models[0].supported_efforts[0].description, "Fast");
    assert_eq!(models[0].supported_efforts[1].description, "");
    assert!(models[0].is_default);
    assert_eq!(models[1].display_name, "bare");
    assert_eq!(models[1].description, "");
    assert_eq!(models[1].default_effort, None);
    assert!(!models[1].is_default);
    assert_eq!(
        models_from_list_response(&parse(r#"{"data":{}}"#)).unwrap_err(),
        "Codex app-server did not return a model list."
    );
}

#[test]
fn stream_helpers() {
    assert_eq!(prefix_title(Some("Agent 1".to_string()), "Searching".to_string()), "Agent 1 · Searching");
    assert_eq!(prefix_title(None, "Searching".to_string()), "Searching");
    assert!(error_mentions_missing_thread("Thread not found: abc"));
    assert!(should_failover_account("Rate Limit exceeded"));
    assert!(should_failover_account("token EXPIRED"));
    assert!(!should_failover_account("syntax error"));
    let _ = collab_tool_title("spawnAgent", 1, true);
    let thread = parse(r#"{"thread":{"turns":[{"items":[{"type":"agentMessage","text":"first"}]},{"items":[{"type":"agentMessage","text":"last"}]}]}}"#);
    let _ = extract_latest_assistant_reply(&thread);
}

#[test]
fn turn_watch_finishes_on_its_thread() {
    let mut watch = TurnWatch::new("t1");
    let other = watch.on_notification("turn/completed", &parse(r#"{"threadId":"t2"}"#));
    assert!(matches!(other.progress, TurnProgress::Waiting));
    let delta = watch.on_notification("item/agentMessage/delta", &parse(r#"{"threadId":"t1","itemId":"i1","delta":"Hi"}"#));
    assert!(watch.saw_assistant_delta());
    assert!(matches!(delta.events.first(), Some(ChatStreamEvent::AssistantDelta { .. })));
    let done = watch.on_notification("turn/completed", &parse(r#"{"threadId":"t1"}"#));
    assert!(matches!(done.progress, TurnProgress::Finished));
}

#[test]
fn turn_watch_reports_errors() {
    let mut watch = TurnWatch::new("t1");
    let _ = watch.on_notification("error", &parse(r#"{"threadId":"t1","error":{"message":"rate limited"}}"#));
    let done = watch.on_notification("turn/completed", &parse(r#"{"threadId":"t1"}"#));
    match done.progress {
        TurnProgress::Failed(m) => assert_eq!(m, "rate limited"),
        _ => panic!("expected a failure"),
    }
    let mut watch = TurnWatch::new("t1");
    let done = watch.on_notification("turn/completed", &parse(r#"{"threadId":"t1","turn":{"error":{"message":"bad turn"}}}"#));
    match done.progress {
        TurnProgress::Failed(m) => assert_eq!(m, "bad turn"),
        _ => panic!("expected a failure"),
    }
}

#[test]
fn label_maps() {
    let mut labels = LabelMap::new();
    labels.insert("x".to_string(), "Brain".to_string());
    assert_eq!(labels.get("x").as_deref(), Some("Brain"));
    let mut counter = 1usize;
    assert_eq!(labels.entry_or_fresh("y", &mut counter), "Agent 1");
    assert_eq!(counter, 2);
    assert_eq!(labels.entry_or_fresh("y", &mut counter), "Agent 1");
    assert_eq!(counter, 2);
}

#[test]
fn turn_watch_keeps_watching_its_threads() {
    let mut watch = TurnWatch::new("t1");
    let own = parse(r#"{"threadId":"t1"}"#);
    let agent = parse(r#"{"threadId":"t2"}"#);
    assert!(watch.thread_matches(&own));
    assert!(!watch.thread_matches(&agent));
    let started = watch.on_notification("thread/started", &parse(r#"{"thread":{"id":"t2","agentNickname":"Scout"}}"#));
    assert!(matches!(started.events.first(), Some(ChatStreamEvent::AgentThread { label, .. }) if label == "Scout"));
    let _ = watch.on_notification("item/completed", &parse(r#"{"threadId":"t2","item":{"type":"agentMessage","id":"m1"}}"#));
    let _ = watch.on_notification("error", &parse(r#"{"threadId":"t2","error":{"message":"agent failed"}}"#));
    assert!(watch.thread_matches(&own));
    assert!(watch.thread_matches(&agent));
    // An error of another thread is not the turn's: the turn still finishes.
    let done = watch.on_notification("turn/completed", &own);
    assert!(matches!(done.progress, TurnProgress::Finished));
}
