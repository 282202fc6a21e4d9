use miawk::json::{JsonMember, JsonNumber, JsonValue};
use miawk::requests::{initialize_params, model_list_params, thread_read_params};
use miawk::rpc::{
    classify_binary_message, classify_message, is_token_refresh_request, notification_envelope,
    request_envelope, response_result, result_envelope, started_thread_id, started_turn_id,
    unsupported_request_envelope, IncomingMessage,
};

fn to_serde(v: &JsonValue) -> serde_json::Value {
    match v {
        JsonValue::Null => serde_json::Value::Null,
        JsonValue::Bool(b) => serde_json::Value::Bool(*b),
        JsonValue::Number(JsonNumber::Unsigned(n)) => serde_json::Value::from(*n),
        JsonValue::Number(JsonNumber::Negative(n)) => serde_json::Value::from(*n),
        JsonValue::Number(JsonNumber::Fractional) => serde_json::Value::Null,
        JsonValue::Str(s) => serde_json::Value::String(s.clone()),
        JsonValue::Array(xs) => serde_json::Value::Array(xs.iter().map(to_serde).collect()),
        JsonValue::Object(ms) => {
            let mut map = serde_json::Map::new();
            for m in ms {
                map.insert(m.key.clone(), to_serde(&m.value));
            }
            serde_json::Value::Object(map)
        }
    }
}

fn from_serde(v: serde_json::Value) -> JsonValue {
    match v {
        serde_json::Value::Null => JsonValue::Null,
        serde_json::Value::Bool(b) => JsonValue::Bool(b),
        serde_json::Value::Number(n) => JsonValue::Number(match n.as_u64() {
            Some(u) => JsonNumber::Unsigned(u),
            None => match n.as_i64() {
                Some(i) => JsonNumber::Negative(i),
                None => JsonNumber::Fractional,
            },
        }),
        serde_json::Value::String(s) => JsonValue::Str(s),
        serde_json::Value::Array(xs) => JsonValue::Array(xs.into_iter().map(from_serde).collect()),
        serde_json::Value::Object(ms) => JsonValue::Object(
            ms.into_iter().map(|(key, value)| JsonMember { key, value: from_serde(value) }).collect(),
        ),
    }
}

fn parse(text: &str) -> JsonValue {
    from_serde(serde_json::from_str(text).unwrap())
}

fn expect(text: &str) -> serde_json::Value {
    serde_json::from_str(text).unwrap()
}

#[test]
fn message_with_method_and_id_is_a_request() {
    let m = classify_message(parse(r#"{"id":7,"method":"account/chatgptAuthTokens/refresh","params":{"a":1}}"#));
    assert_eq!(
        m,
        Some(IncomingMessage::Request {
            id: 7,
            method: "account/chatgptAuthTokens/refresh".to_string(),
            params: parse(r#"{"a":1}"#),
        })
    );
}

#[test]
fn message_with_method_only_is_a_notification_with_null_params() {
    let m = classify_message(parse(r#"{"method":"turn/completed"}"#));
    assert_eq!(
        m,
        Some(IncomingMessage::Notification { method: "turn/completed".to_string(), params: JsonValue::Null })
    );
}

#[test]
fn message_with_id_only_is_a_whole_response() {
    let text = r#"{"id":3,"result":{"ok":true}}"#;
    assert_eq!(classify_message(parse(text)), Some(IncomingMessage::Response { id: 3, payload: parse(text) }));
}

#[test]
fn message_with_neither_is_ignored() {
    assert_eq!(classify_message(parse(r#"{"jsonrpc":"2.0","id":"x"}"#)), None);
}

#[test]
fn binary_message_needs_an_id() {
    assert_eq!(
        classify_binary_message(parse(r#"{"result":1}"#)),
        Err("received unexpected binary app-server message".to_string())
    );
    assert_eq!(
        classify_binary_message(parse(r#"{"id":2}"#)),
        Ok(IncomingMessage::Response { id: 2, payload: parse(r#"{"id":2}"#) })
    );
}

#[test]
fn response_error_message_wins_over_result() {
    let r = response_result(parse(r#"{"id":1,"error":{"message":"thread not found"},"result":{}}"#), "thread/resume");
    assert_eq!(r, Err("thread not found".to_string()));
}

#[test]
fn response_error_without_message_is_unknown() {
    let r = response_result(parse(r#"{"id":1,"error":{"code":5}}"#), "turn/start");
    assert_eq!(r, Err("Codex app-server returned an unknown error.".to_string()));
}

#[test]
fn response_result_is_taken_out() {
    let r = response_result(parse(r#"{"id":1,"result":{"thread":{"id":"t-1"}}}"#), "thread/start");
    assert_eq!(r, Ok(parse(r#"{"thread":{"id":"t-1"}}"#)));
}

#[test]
fn response_without_result_names_the_method() {
    let r = response_result(parse(r#"{"id":1}"#), "model/list");
    assert_eq!(r, Err("app-server response for model/list had no result".to_string()));
}

#[test]
fn started_ids_are_read_from_the_response() {
    assert_eq!(started_thread_id(&parse(r#"{"thread":{"id":"t-9"}}"#)), Ok("t-9".to_string()));
    assert_eq!(
        started_thread_id(&parse(r#"{"thread":{"id":4}}"#)),
        Err("Codex app-server did not return a thread id.".to_string())
    );
    assert_eq!(started_turn_id(&parse(r#"{"turn":{"id":"u-2"}}"#)), Ok("u-2".to_string()));
    assert_eq!(
        started_turn_id(&parse(r#"{"thread":{"id":"t"}}"#)),
        Err("Codex app-server did not return a turn id.".to_string())
    );
}

#[test]
fn token_refresh_request_is_recognised() {
    assert!(is_token_refresh_request("account/chatgptAuthTokens/refresh"));
    assert!(!is_token_refresh_request("account/other"));
}

#[test]
fn envelopes_frame_requests_notifications_and_answers() {
    assert_eq!(
        to_serde(&request_envelope(4, "thread/read", parse(r#"{"threadId":"t"}"#))),
        expect(r#"{"jsonrpc":"2.0","id":4,"method":"thread/read","params":{"threadId":"t"}}"#)
    );
    assert_eq!(
        to_serde(&notification_envelope("initialized", JsonValue::Null)),
        expect(r#"{"jsonrpc":"2.0","method":"initialized"}"#)
    );
    assert_eq!(
        to_serde(&notification_envelope("x", parse(r#"{"a":"b"}"#))),
        expect(r#"{"jsonrpc":"2.0","method":"x","params":{"a":"b"}}"#)
    );
    assert_eq!(
        to_serde(&result_envelope(9, parse(r#"{"accessToken":"a"}"#))),
        expect(r#"{"jsonrpc":"2.0","id":9,"result":{"accessToken":"a"}}"#)
    );
    assert_eq!(
        to_serde(&unsupported_request_envelope(11, "item/tool/call")),
        expect(r#"{"jsonrpc":"2.0","id":11,"error":{"code":-32601,"message":"Unsupported app-server request: item/tool/call"}}"#)
    );
}

#[test]
fn fixed_request_parameters() {
    assert_eq!(
        to_serde(&initialize_params("0.1.0")),
        expect(r#"{"clientInfo":{"name":"miawk","title":"MIAWK","version":"0.1.0"},"capabilities":{"experimentalApi":true}}"#)
    );
    assert_eq!(to_serde(&model_list_params()), expect(r#"{"limit":100,"includeHidden":false}"#));
    assert_eq!(to_serde(&thread_read_params("t-1")), expect(r#"{"threadId":"t-1","includeTurns":true}"#));
}
