use miawk::accounts::AuthTokens;
use miawk::json::{JsonNumber, JsonValue};
use miawk::requests::{
    chatgpt_refresh_response, thread_resume_params, thread_start_params, turn_interrupt_params,
    turn_start_params, turn_steer_params,
};
use miawk::runtime::{ChatAttachment, ChatAttachmentKind, ChatTurnSettings};

fn to_serde(v: &JsonValue) -> serde_json::Value {
    match v {
        JsonValue::Null => serde_json::Value::Null,
        JsonValue::Bool(b) => serde_json::Value::Bool(*b),
        JsonValue::Number(JsonNumber::Unsigned(n)) => serde_json::Value::from(*n),
        JsonValue::Number(JsonNumber::Negative(n)) => serde_json::Value::from(*n),
        JsonValue::Number(JsonNumber::Fractional) => serde_json::Value::Null,
        JsonValue::Str(s) => serde_json::Value::String(s.clone()),
        JsonValue::Array(xs) => serde_json::Value::Array(xs.iter().map(to_serde).collect()),
        JsonValue::Object(ms) => {
            let mut map = serde_json::Map::new();
            for m in ms {
                map.insert(m.key.clone(), to_serde(&m.value));
            }
            serde_json::Value::Object(map)
        }
    }
}

fn expect(text: &str) -> serde_json::Value {
    serde_json::from_str(text).unwrap()
}

#[test]
fn turn_start_request() {
    let settings = ChatTurnSettings { model: "gpt-5.4".to_string(), effort: Some("high".to_string()), service_tier: None, long_context: false };
    let atts = vec![
        ChatAttachment { name: "a.png".to_string(), path: "/tmp/a.png".to_string(), kind: ChatAttachmentKind::Image },
        ChatAttachment { name: "b.txt".to_string(), path: "/tmp/b.txt".to_string(), kind: ChatAttachmentKind::File },
    ];
    let v = turn_start_params("th-1", "Hello", &atts, &settings);
    assert_eq!(
        to_serde(&v),
        expect(r#"{"threadId":"th-1","model":"gpt-5.4","effort":"high","serviceTier":null,
            "collaborationMode":{"mode":"default","settings":{"model":"gpt-5.4","reasoning_effort":"high","developer_instructions":null}},
            "input":[{"type":"text","text":"Hello","text_elements":[]},
                     {"type":"localImage","path":"/tmp/a.png"},
                     {"type":"text","text":"Attached file: /tmp/b.txt","text_elements":[]}]}"#)
    );
}

#[test]
fn steer_and_interrupt_requests() {
    let v = turn_steer_params("th", "tu", "More", &Vec::new());
    assert_eq!(to_serde(&v), expect(r#"{"threadId":"th","expectedTurnId":"tu","input":[{"type":"text","text":"More","text_elements":[]}]}"#));
    let v = turn_interrupt_params("th", "tu");
    assert_eq!(to_serde(&v), expect(r#"{"threadId":"th","turnId":"tu"}"#));
}

#[test]
fn thread_requests() {
    let v = thread_start_params("/ws", "gpt-5.4", &Some("fast".to_string()));
    let s = to_serde(&v);
    assert_eq!(s["cwd"], "/ws");
    assert_eq!(s["serviceTier"], "fast");
    assert_eq!(s["approvalPolicy"], "never");
    assert_eq!(s["sandbox"], "danger-full-access");
    assert_eq!(s["personality"], "friendly");
    assert!(s["developerInstructions"].as_str().unwrap().contains("[[inbox-question]] <question>"));
    let r = to_serde(&thread_resume_params("th", &None));
    assert_eq!(r["threadId"], "th");
    assert!(r["serviceTier"].is_null());
}

#[test]
fn refresh_answers() {
    let tokens = Some(AuthTokens { id_token: None, access_token: Some("acc".to_string()), account_id: Some("id".to_string()) });
    let v = chatgpt_refresh_response(&tokens).unwrap();
    assert_eq!(to_serde(&v), expect(r#"{"accessToken":"acc","chatgptAccountId":"id","chatgptPlanType":null}"#));
    assert_eq!(chatgpt_refresh_response(&None).unwrap_err(), "Codex auth file had no ChatGPT tokens to refresh.");
    let no_access = Some(AuthTokens { id_token: None, access_token: None, account_id: Some("id".to_string()) });
    assert_eq!(chatgpt_refresh_response(&no_access).unwrap_err(), "Codex auth file had no ChatGPT access token.");
    let no_id = Some(AuthTokens { id_token: None, access_token: Some("a".to_string()), account_id: None });
    assert_eq!(chatgpt_refresh_response(&no_id).unwrap_err(), "Codex auth file had no ChatGPT account id.");
}
