//! The JSON-RPC framing of the app-server connection: what kind of message
//! arrived, what a response answers, the ids that `thread/start` and
//! `turn/start` give back, and the envelopes that go out.
use vstd::prelude::*;

use crate::json::{
    at_path, member2, member_of, str_at, str_member, str_of, take_member, u64_of, JsonMember,
    JsonNumber, JsonValue,
};
use crate::requests::{member_shapes, object_of, push_member, shape, text_value, JsonShape};
use crate::text::{chars_of, string_from, text_eq};

verus! {

/// A message from the app-server.
#[derive(Debug, PartialEq)]
pub enum IncomingMessage {
    /// A request that the client answers.
    Request { id: u64, method: String, params: JsonValue },
    /// A notification.
    Notification { method: String, params: JsonValue },
    /// The response to a request of the client, whole.
    Response { id: u64, payload: JsonValue },
}

/// The method a message names.
pub open spec fn method_of(p: JsonValue) -> Option<Seq<char>> {
    str_at(p, "method"@)
}

/// The id a message carries, where it is an unsigned integer.
pub open spec fn id_of(p: JsonValue) -> Option<u64> {
    u64_of(member_of(p, "id"@))
}

/// The parameters of a message; null where it has none.
pub open spec fn params_of(p: JsonValue) -> JsonValue {
    match member_of(p, "params"@) {
        Some(x) => x,
        None => JsonValue::Null,
    }
}

/// Whether `r` is what a text message `p` is: a request where it names a
/// method and carries an id, a notification where it names a method only,
/// a response where it carries an id only, and nothing otherwise.
pub open spec fn classified(p: JsonValue, r: Option<IncomingMessage>) -> bool {
    match r {
        Some(IncomingMessage::Request { id, method, params }) => method_of(p) == Some(method@)
            && id_of(p) == Some(id) && params == params_of(p),
        Some(IncomingMessage::Notification { method, params }) => method_of(p) == Some(method@)
            && id_of(p) is None && params == params_of(p),
        Some(IncomingMessage::Response { id, payload }) => method_of(p) is None && id_of(p) == Some(
            id,
        ) && payload == p,
        None => method_of(p) is None && id_of(p) is None,
    }
}

/// What a text message from the app-server is; nothing for one that is
/// neither a request, a notification nor a response.
pub fn classify_message(payload: JsonValue) -> (r: Option<IncomingMessage>)
    ensures
        classified(payload, r),
{
    let method: Option<String> = match str_member(&payload, "method") {
        Some(m) => Some(m.to_owned()),
        None => None,
    };
    let id: Option<u64> = match payload.get("id") {
        Some(x) => x.as_u64(),
        None => None,
    };
    let ghost whole = payload;
    match method {
        Some(m) => {
            let params = match take_member(payload, "params") {
                Some(p) => p,
                None => JsonValue::Null,
            };
            match id {
                Some(i) => Some(IncomingMessage::Request { id: i, method: m, params }),
                None => Some(IncomingMessage::Notification { method: m, params }),
            }
        },
        None => match id {
            Some(i) => Some(IncomingMessage::Response { id: i, payload }),
            None => None,
        },
    }
}

/// A binary message is taken as a response; one without an id is an error.
pub fn classify_binary_message(payload: JsonValue) -> (r: Result<IncomingMessage, String>)
    ensures
        match r {
            Ok(m) => id_of(payload) is Some && m == IncomingMessage::Response {
                id: id_of(payload)->0,
                payload,
            },
            Err(e) => id_of(payload) is None && e@ == "received unexpected binary app-server message"@,
        },
{
    let id: Option<u64> = match payload.get("id") {
        Some(x) => x.as_u64(),
        None => None,
    };
    match id {
        Some(i) => Ok(IncomingMessage::Response { id: i, payload }),
        None => {
            proof {
                reveal_strlit("received unexpected binary app-server message");
            }
            Err(String::from_str("received unexpected binary app-server message"))
        },
    }
}

/// What a response to the request `method` answers: the message of its
/// error, else its result, else that it had none.
pub open spec fn response_outcome(payload: JsonValue, method: Seq<char>) -> Result<JsonValue, Seq<char>> {
    match member_of(payload, "error"@) {
        Some(e) => Err(
            match str_at(e, "message"@) {
                Some(m) => m,
                None => "Codex app-server returned an unknown error."@,
            },
        ),
        None => match member_of(payload, "result"@) {
            Some(x) => Ok(x),
            None => Err("app-server response for "@ + method + " had no result"@),
        },
    }
}

fn concat3(a: &str, b: &str, c: &str) -> (r: String)
    ensures
        r@ == a@ + b@ + c@,
{
    let mut v = chars_of(a);
    let bs = chars_of(b);
    let cs = chars_of(c);
    let ghost start = v@;
    for i in 0..bs.len()
        invariant
            v@ == start + bs@.take(i as int),
    {
        v.push(bs[i]);
        proof {
            assert(bs@.take(i as int).push(bs@[i as int]) == bs@.take(i + 1));
        }
    }
    proof {
        assert(bs@.take(bs@.len() as int) == bs@);
    }
    let ghost mid = v@;
    for i in 0..cs.len()
        invariant
            v@ == mid + cs@.take(i as int),
    {
        v.push(cs[i]);
        proof {
            assert(cs@.take(i as int).push(cs@[i as int]) == cs@.take(i + 1));
        }
    }
    proof {
        assert(cs@.take(cs@.len() as int) == cs@);
    }
    string_from(&v)
}

/// The result of a response to the request `method`, or the error it
/// reports.
pub fn response_result(payload: JsonValue, method: &str) -> (r: Result<JsonValue, String>)
    ensures
        match r {
            Ok(v) => response_outcome(payload, method@) == Ok::<JsonValue, Seq<char>>(v),
            Err(e) => response_outcome(payload, method@) == Err::<JsonValue, Seq<char>>(e@),
        },
{
    let error_message: Option<String> = match payload.get("error") {
        Some(e) => match str_member(e, "message") {
            Some(m) => Some(m.to_owned()),
            None => {
                proof {
                    reveal_strlit("Codex app-server returned an unknown error.");
                }
                Some(String::from_str("Codex app-server returned an unknown error."))
            },
        },
        None => None,
    };
    match error_message {
        Some(m) => Err(m),
        None => match take_member(payload, "result") {
            Some(x) => Ok(x),
            None => {
                proof {
                    reveal_strlit("app-server response for ");
                    reveal_strlit(" had no result");
                }
                Err(concat3("app-server response for ", method, " had no result"))
            },
        },
    }
}

/// The text at `outer` / `id` of a response.
pub open spec fn nested_id(v: JsonValue, outer: Seq<char>) -> Option<Seq<char>> {
    str_of(at_path(v, seq![outer, "id"@]))
}

fn nested_id_exec(v: &JsonValue, outer: &str) -> (r: Option<String>)
    ensures
        match r {
            Some(s) => nested_id(*v, outer@) == Some(s@),
            None => nested_id(*v, outer@) is None,
        },
{
    match member2(v, outer, "id") {
        Some(x) => match x.as_str() {
            Some(s) => Some(s.to_owned()),
            None => None,
        },
        None => None,
    }
}

/// The id of the thread that `thread/start` started.
pub fn started_thread_id(response: &JsonValue) -> (r: Result<String, String>)
    ensures
        match r {
            Ok(s) => nested_id(*response, "thread"@) == Some(s@),
            Err(e) => nested_id(*response, "thread"@) is None && e@
                == "Codex app-server did not return a thread id."@,
        },
{
    match nested_id_exec(response, "thread") {
        Some(s) => Ok(s),
        None => {
            proof {
                reveal_strlit("Codex app-server did not return a thread id.");
            }
            Err(String::from_str("Codex app-server did not return a thread id."))
        },
    }
}

/// The id of the turn that `turn/start` started.
pub fn started_turn_id(response: &JsonValue) -> (r: Result<String, String>)
    ensures
        match r {
            Ok(s) => nested_id(*response, "turn"@) == Some(s@),
            Err(e) => nested_id(*response, "turn"@) is None && e@
                == "Codex app-server did not return a turn id."@,
        },
{
    match nested_id_exec(response, "turn") {
        Some(s) => Ok(s),
        None => {
            proof {
                reveal_strlit("Codex app-server did not return a turn id.");
            }
            Err(String::from_str("Codex app-server did not return a turn id."))
        },
    }
}

/// Whether a request of the app-server asks for fresh ChatGPT tokens.
pub fn is_token_refresh_request(method: &str) -> (b: bool)
    ensures
        b == (method@ == "account/chatgptAuthTokens/refresh"@),
{
    text_eq(method, "account/chatgptAuthTokens/refresh")
}

/// The envelope of a request.
pub open spec fn request_frame(id: u64, method: Seq<char>, params: JsonShape) -> JsonShape {
    JsonShape::Object(
        seq![
            ("jsonrpc"@, JsonShape::Str("2.0"@)),
            ("id"@, JsonShape::Unsigned(id)),
            ("method"@, JsonShape::Str(method)),
            ("params"@, params),
        ],
    )
}

fn unsigned(n: u64) -> (v: JsonValue)
    ensures
        shape(v) == JsonShape::Unsigned(n),
{
    JsonValue::Number(JsonNumber::Unsigned(n))
}

/// The request `method` with id `id` and its parameters.
pub fn request_envelope(id: u64, method: &str, params: JsonValue) -> (v: JsonValue)
    ensures
        shape(v) == request_frame(id, method@, shape(params)),
{
    let ghost p = shape(params);
    let mut ms: Vec<JsonMember> = Vec::new();
    push_member(&mut ms, "jsonrpc", text_value("2.0"));
    push_member(&mut ms, "id", unsigned(id));
    push_member(&mut ms, "method", text_value(method));
    push_member(&mut ms, "params", params);
    proof {
        assert(member_shapes(ms@) =~= seq![
            ("jsonrpc"@, JsonShape::Str("2.0"@)),
            ("id"@, JsonShape::Unsigned(id)),
            ("method"@, JsonShape::Str(method@)),
            ("params"@, p),
        ]);
    }
    object_of(ms)
}

/// The envelope of a notification; null parameters are left out.
pub open spec fn notification_frame(method: Seq<char>, params: JsonShape) -> JsonShape {
    if params is Null {
        JsonShape::Object(seq![("jsonrpc"@, JsonShape::Str("2.0"@)), ("method"@, JsonShape::Str(method))])
    } else {
        JsonShape::Object(
            seq![
                ("jsonrpc"@, JsonShape::Str("2.0"@)),
                ("method"@, JsonShape::Str(method)),
                ("params"@, params),
            ],
        )
    }
}

/// The notification `method` with its parameters.
pub fn notification_envelope(method: &str, params: JsonValue) -> (v: JsonValue)
    ensures
        shape(v) == notification_frame(method@, shape(params)),
{
    let ghost p = shape(params);
    let null = params.is_null();
    let mut ms: Vec<JsonMember> = Vec::new();
    push_member(&mut ms, "jsonrpc", text_value("2.0"));
    push_member(&mut ms, "method", text_value(method));
    if null {
        proof {
            assert(member_shapes(ms@) =~= seq![
                ("jsonrpc"@, JsonShape::Str("2.0"@)),
                ("method"@, JsonShape::Str(method@)),
            ]);
        }
    } else {
        push_member(&mut ms, "params", params);
        proof {
            assert(member_shapes(ms@) =~= seq![
                ("jsonrpc"@, JsonShape::Str("2.0"@)),
                ("method"@, JsonShape::Str(method@)),
                ("params"@, p),
            ]);
        }
    }
    object_of(ms)
}

/// The envelope of the answer `result` to the request `id`.
pub open spec fn result_frame(id: u64, result: JsonShape) -> JsonShape {
    JsonShape::Object(
        seq![
            ("jsonrpc"@, JsonShape::Str("2.0"@)),
            ("id"@, JsonShape::Unsigned(id)),
            ("result"@, result),
        ],
    )
}

/// The answer `result` to the request `id`.
pub fn result_envelope(id: u64, result: JsonValue) -> (v: JsonValue)
    ensures
        shape(v) == result_frame(id, shape(result)),
{
    let ghost r = shape(result);
    let mut ms: Vec<JsonMember> = Vec::new();
    push_member(&mut ms, "jsonrpc", text_value("2.0"));
    push_member(&mut ms, "id", unsigned(id));
    push_member(&mut ms, "result", result);
    proof {
        assert(member_shapes(ms@) =~= seq![
            ("jsonrpc"@, JsonShape::Str("2.0"@)),
            ("id"@, JsonShape::Unsigned(id)),
            ("result"@, r),
        ]);
    }
    object_of(ms)
}

/// The error answer to a request the client does not handle: code -32601
/// and a message naming the method.
pub open spec fn unsupported_frame(id: u64, method: Seq<char>) -> JsonShape {
    JsonShape::Object(
        seq![
            ("jsonrpc"@, JsonShape::Str("2.0"@)),
            ("id"@, JsonShape::Unsigned(id)),
            (
                "error"@,
                JsonShape::Object(
                    seq![
                        ("code"@, JsonShape::Negative(-32601i64)),
                        ("message"@, JsonShape::Str("Unsupported app-server request: "@ + method)),
                    ],
                ),
            ),
        ],
    )
}

/// The error answer to the request `id` of a method the client does not
/// handle.
pub fn unsupported_request_envelope(id: u64, method: &str) -> (v: JsonValue)
    ensures
        shape(v) == unsupported_frame(id, method@),
{
    proof {
        reveal_strlit("Unsupported app-server request: ");
    }
    let message = concat3("Unsupported app-server request: ", method, "");
    proof {
        reveal_strlit("");
        assert(message@ == "Unsupported app-server request: "@ + method@);
    }
    let mut err: Vec<JsonMember> = Vec::new();
    push_member(&mut err, "code", JsonValue::Number(JsonNumber::Negative(-32601)));
    let ghost m = message@;
    push_member(&mut err, "message", JsonValue::Str(message));
    proof {
        assert(member_shapes(err@) =~= seq![
            ("code"@, JsonShape::Negative(-32601i64)),
            ("message"@, JsonShape::Str(m)),
        ]);
    }
    let err_value = object_of(err);
    let ghost e = shape(err_value);
    let mut ms: Vec<JsonMember> = Vec::new();
    push_member(&mut ms, "jsonrpc", text_value("2.0"));
    push_member(&mut ms, "id", unsigned(id));
    push_member(&mut ms, "error", err_value);
    proof {
        assert(member_shapes(ms@) =~= seq![
            ("jsonrpc"@, JsonShape::Str("2.0"@)),
            ("id"@, JsonShape::Unsigned(id)),
            ("error"@, e),
        ]);
    }
    object_of(ms)
}

} // verus!
