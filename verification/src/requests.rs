//! The JSON the app sends to the Codex app-server: the parameters of its
//! requests and the answer to its token refresh request.
use vstd::prelude::*;

use crate::accounts::AuthTokens;
use crate::json::{JsonMember, JsonNumber, JsonValue};
use crate::runtime::{opt_text, ChatAttachment, ChatAttachmentKind, ChatTurnSettings};
use crate::text::{chars_of, string_from};

verus! {

/// The instructions that ask the model for inbox questions.
pub open spec fn inbox_instructions() -> Seq<char> {
    "When you have a useful question, uncertainty, or optional decision that would help but does not need to block progress, add a standalone line to your next assistant message in exactly this form: [[inbox-question]] <question>. Then continue with your best assumption. Keep inbox questions short and concrete. Only use blocking request_user_input when you truly cannot proceed safely or correctly without the user's answer."@
}

/// A JSON value as plain values.
pub enum JsonShape {
    Null,
    Bool(bool),
    Unsigned(u64),
    Negative(i64),
    Str(Seq<char>),
    Array(Seq<JsonShape>),
    Object(Seq<(Seq<char>, JsonShape)>),
    Other,
}

/// The shape of a JSON value.
pub open spec fn shape(v: JsonValue) -> JsonShape
    decreases v,
{
    match v {
        JsonValue::Null => JsonShape::Null,
        JsonValue::Bool(b) => JsonShape::Bool(b),
        JsonValue::Number(JsonNumber::Unsigned(n)) => JsonShape::Unsigned(n),
        JsonValue::Number(JsonNumber::Negative(n)) => JsonShape::Negative(n),
        JsonValue::Number(_) => JsonShape::Other,
        JsonValue::Str(s) => JsonShape::Str(s@),
        JsonValue::Array(xs) => JsonShape::Array(
            Seq::new(xs@.len(), |i: int| if 0 <= i < xs@.len() { shape(xs@[i]) } else { JsonShape::Null }),
        ),
        JsonValue::Object(ms) => JsonShape::Object(
            Seq::new(
                ms@.len(),
                |i: int|
                    if 0 <= i < ms@.len() {
                        (ms@[i].key@, shape(ms@[i].value))
                    } else {
                        (Seq::empty(), JsonShape::Null)
                    },
            ),
        ),
    }
}

/// A string or null.
pub open spec fn text_or_null(o: Option<Seq<char>>) -> JsonShape {
    match o {
        Some(s) => JsonShape::Str(s),
        None => JsonShape::Null,
    }
}

/// The shapes of the members of an object.
pub open spec fn member_shapes(ms: Seq<JsonMember>) -> Seq<(Seq<char>, JsonShape)> {
    ms.map_values(|m: JsonMember| (m.key@, shape(m.value)))
}

pub(crate) fn object_of(ms: Vec<JsonMember>) -> (v: JsonValue)
    ensures
        shape(v) == JsonShape::Object(member_shapes(ms@)),
{
    let ghost g = ms@;
    let v = JsonValue::Object(ms);
    proof {
        let s = match shape(v) {
            JsonShape::Object(s) => s,
            _ => Seq::empty(),
        };
        assert(s =~= member_shapes(g));
    }
    v
}

pub(crate) fn array_of(xs: Vec<JsonValue>) -> (v: JsonValue)
    ensures
        shape(v) == JsonShape::Array(xs@.map_values(|x: JsonValue| shape(x))),
{
    let ghost g = xs@;
    let v = JsonValue::Array(xs);
    proof {
        let s = match shape(v) {
            JsonShape::Array(s) => s,
            _ => Seq::empty(),
        };
        assert(s =~= g.map_values(|x: JsonValue| shape(x)));
    }
    v
}

pub(crate) fn member(key: &str, value: JsonValue) -> (m: JsonMember)
    ensures
        m.key@ == key@,
        m.value == value,
{
    JsonMember { key: String::from_str(key), value }
}

pub(crate) fn text_value(s: &str) -> (v: JsonValue)
    ensures
        shape(v) == JsonShape::Str(s@),
{
    JsonValue::Str(String::from_str(s))
}

pub(crate) fn opt_value(o: &Option<String>) -> (v: JsonValue)
    ensures
        shape(v) == text_or_null(opt_text(*o)),
{
    match o {
        Some(s) => JsonValue::Str(s.clone()),
        None => JsonValue::Null,
    }
}

/// The input item of a prompt's text.
pub open spec fn text_input(text: Seq<char>) -> JsonShape {
    JsonShape::Object(
        seq![
            ("type"@, JsonShape::Str("text"@)),
            ("text"@, JsonShape::Str(text)),
            ("text_elements"@, JsonShape::Array(Seq::empty())),
        ],
    )
}

/// The input item of an attachment: an image by its path, a file named in
/// a line of text.
pub open spec fn attachment_input(a: ChatAttachment) -> JsonShape {
    match a.kind {
        ChatAttachmentKind::Image => JsonShape::Object(
            seq![("type"@, JsonShape::Str("localImage"@)), ("path"@, JsonShape::Str(a.path@))],
        ),
        ChatAttachmentKind::File => text_input("Attached file: "@ + a.path@),
    }
}

/// The input of a turn: the prompt, then each attachment.
pub open spec fn turn_input(prompt: Seq<char>, attachments: Seq<ChatAttachment>) -> Seq<JsonShape> {
    seq![text_input(prompt)] + attachments.map_values(|a: ChatAttachment| attachment_input(a))
}

pub(crate) fn push_member(ms: &mut Vec<JsonMember>, key: &str, value: JsonValue)
    ensures
        member_shapes(final(ms)@) == member_shapes(old(ms)@).push((key@, shape(value))),
{
    let m = member(key, value);
    ms.push(m);
    proof {
        assert(member_shapes(ms@) =~= member_shapes(old(ms)@).push((key@, shape(value))));
    }
}

pub(crate) fn str_value(s: String) -> (v: JsonValue)
    ensures
        shape(v) == JsonShape::Str(s@),
{
    JsonValue::Str(s)
}

fn text_input_value(text: String) -> (v: JsonValue)
    ensures
        shape(v) == text_input(text@),
{
    let elements: Vec<JsonValue> = Vec::new();
    let mut ms: Vec<JsonMember> = Vec::new();
    let ghost t = text@;
    push_member(&mut ms, "type", text_value("text"));
    push_member(&mut ms, "text", str_value(text));
    push_member(&mut ms, "text_elements", array_of(elements));
    proof {
        assert(elements@.map_values(|x: JsonValue| shape(x)) =~= Seq::<JsonShape>::empty());
        assert(member_shapes(ms@) =~= seq![
            ("type"@, JsonShape::Str("text"@)),
            ("text"@, JsonShape::Str(t)),
            ("text_elements"@, JsonShape::Array(Seq::empty())),
        ]);
    }
    object_of(ms)
}

fn attachment_input_value(a: &ChatAttachment) -> (v: JsonValue)
    ensures
        shape(v) == attachment_input(*a),
{
    match a.kind {
        ChatAttachmentKind::Image => {
            let mut ms: Vec<JsonMember> = Vec::new();
            push_member(&mut ms, "type", text_value("localImage"));
            push_member(&mut ms, "path", str_value(a.path.clone()));
            proof {
                assert(member_shapes(ms@) =~= seq![
                    ("type"@, JsonShape::Str("localImage"@)),
                    ("path"@, JsonShape::Str(a.path@)),
                ]);
            }
            object_of(ms)
        },
        ChatAttachmentKind::File => {
            let mut t = chars_of("Attached file: ");
            let p = chars_of(a.path.as_str());
            let ghost start = t@;
            for i in 0..p.len()
                invariant
                    t@ == start + p@.take(i as int),
            {
                t.push(p[i]);
                proof {
                    assert(p@.take(i as int).push(p@[i as int]) == p@.take(i + 1));
                }
            }
            proof {
                assert(p@.take(p@.len() as int) == p@);
            }
            text_input_value(string_from(&t))
        },
    }
}

/// The input items of a turn.
pub fn turn_input_items(prompt: &str, attachments: &Vec<ChatAttachment>) -> (r: Vec<JsonValue>)
    ensures
        r@.map_values(|v: JsonValue| shape(v)) == turn_input(prompt@, attachments@),
{
    let mut out: Vec<JsonValue> = Vec::new();
    out.push(text_input_value(String::from_str(prompt)));
    let mut i: usize = 0;
    while i < attachments.len()
        invariant
            i <= attachments@.len(),
            out@.map_values(|v: JsonValue| shape(v)) == seq![text_input(prompt@)] + attachments@.take(
                i as int,
            ).map_values(|a: ChatAttachment| attachment_input(a)),
        decreases attachments@.len() - i,
    {
        let ghost before = out@;
        out.push(attachment_input_value(&attachments[i]));
        proof {
            assert(out@.map_values(|v: JsonValue| shape(v)) == before.map_values(
                |v: JsonValue| shape(v),
            ).push(attachment_input(attachments@[i as int])));
            assert(attachments@.take(i + 1).map_values(|a: ChatAttachment| attachment_input(a))
                == attachments@.take(i as int).map_values(|a: ChatAttachment| attachment_input(a)).push(
                attachment_input(attachments@[i as int]),
            ));
        }
        i = i + 1;
    }
    proof {
        assert(attachments@.take(attachments@.len() as int) == attachments@);
    }
    out
}

/// The parameters of `turn/start`.
pub open spec fn turn_start(
    thread_id: Seq<char>,
    input: Seq<JsonShape>,
    settings: ChatTurnSettings,
) -> JsonShape {
    JsonShape::Object(
        seq![
            ("threadId"@, JsonShape::Str(thread_id)),
            ("model"@, JsonShape::Str(settings.model@)),
            ("effort"@, text_or_null(opt_text(settings.effort))),
            ("serviceTier"@, text_or_null(opt_text(settings.service_tier))),
            (
                "collaborationMode"@,
                JsonShape::Object(
                    seq![
                        ("mode"@, JsonShape::Str("default"@)),
                        (
                            "settings"@,
                            JsonShape::Object(
                                seq![
                                    ("model"@, JsonShape::Str(settings.model@)),
                                    ("reasoning_effort"@, text_or_null(opt_text(settings.effort))),
                                    ("developer_instructions"@, JsonShape::Null),
                                ],
                            ),
                        ),
                    ],
                ),
            ),
            ("input"@, JsonShape::Array(input)),
        ],
    )
}

/// The parameters of `turn/start` for a prompt with its attachments.
pub fn turn_start_params(
    thread_id: &str,
    prompt: &str,
    attachments: &Vec<ChatAttachment>,
    settings: &ChatTurnSettings,
) -> (v: JsonValue)
    ensures
        shape(v) == turn_start(thread_id@, turn_input(prompt@, attachments@), *settings),
{
    let input = turn_input_items(prompt, attachments);
    let ghost input_shape = input@.map_values(|v: JsonValue| shape(v));
    let mut inner: Vec<JsonMember> = Vec::new();
    push_member(&mut inner, "model", str_value(settings.model.clone()));
    push_member(&mut inner, "reasoning_effort", opt_value(&settings.effort));
    push_member(&mut inner, "developer_instructions", JsonValue::Null);
    let ghost inner_shape = member_shapes(inner@);
    let mut mode: Vec<JsonMember> = Vec::new();
    push_member(&mut mode, "mode", text_value("default"));
    push_member(&mut mode, "settings", object_of(inner));
    let ghost mode_shape = member_shapes(mode@);
    let mut ms: Vec<JsonMember> = Vec::new();
    push_member(&mut ms, "threadId", text_value(thread_id));
    push_member(&mut ms, "model", str_value(settings.model.clone()));
    push_member(&mut ms, "effort", opt_value(&settings.effort));
    push_member(&mut ms, "serviceTier", opt_value(&settings.service_tier));
    push_member(&mut ms, "collaborationMode", object_of(mode));
    push_member(&mut ms, "input", array_of(input));
    proof {
        assert(inner_shape =~= seq![
            ("model"@, JsonShape::Str(settings.model@)),
            ("reasoning_effort"@, text_or_null(opt_text(settings.effort))),
            ("developer_instructions"@, JsonShape::Null),
        ]);
        assert(mode_shape =~= seq![
            ("mode"@, JsonShape::Str("default"@)),
            ("settings"@, JsonShape::Object(inner_shape)),
        ]);
        assert(member_shapes(ms@) =~= seq![
            ("threadId"@, JsonShape::Str(thread_id@)),
            ("model"@, JsonShape::Str(settings.model@)),
            ("effort"@, text_or_null(opt_text(settings.effort))),
            ("serviceTier"@, text_or_null(opt_text(settings.service_tier))),
            ("collaborationMode"@, JsonShape::Object(mode_shape)),
            ("input"@, JsonShape::Array(input_shape)),
        ]);
    }
    object_of(ms)
}

/// The parameters of `turn/steer`.
pub open spec fn turn_steer(thread_id: Seq<char>, turn_id: Seq<char>, input: Seq<JsonShape>) -> JsonShape {
    JsonShape::Object(
        seq![
            ("threadId"@, JsonShape::Str(thread_id)),
            ("expectedTurnId"@, JsonShape::Str(turn_id)),
            ("input"@, JsonShape::Array(input)),
        ],
    )
}

/// The parameters of `turn/steer` for a prompt with its attachments.
pub fn turn_steer_params(
    thread_id: &str,
    turn_id: &str,
    prompt: &str,
    attachments: &Vec<ChatAttachment>,
) -> (v: JsonValue)
    ensures
        shape(v) == turn_steer(thread_id@, turn_id@, turn_input(prompt@, attachments@)),
{
    let input = turn_input_items(prompt, attachments);
    let ghost input_shape = input@.map_values(|v: JsonValue| shape(v));
    let mut ms: Vec<JsonMember> = Vec::new();
    push_member(&mut ms, "threadId", text_value(thread_id));
    push_member(&mut ms, "expectedTurnId", text_value(turn_id));
    push_member(&mut ms, "input", array_of(input));
    proof {
        assert(member_shapes(ms@) =~= seq![
            ("threadId"@, JsonShape::Str(thread_id@)),
            ("expectedTurnId"@, JsonShape::Str(turn_id@)),
            ("input"@, JsonShape::Array(input_shape)),
        ]);
    }
    object_of(ms)
}

/// The parameters of `turn/interrupt`.
pub fn turn_interrupt_params(thread_id: &str, turn_id: &str) -> (v: JsonValue)
    ensures
        shape(v) == JsonShape::Object(
            seq![("threadId"@, JsonShape::Str(thread_id@)), ("turnId"@, JsonShape::Str(turn_id@))],
        ),
{
    let mut ms: Vec<JsonMember> = Vec::new();
    push_member(&mut ms, "threadId", text_value(thread_id));
    push_member(&mut ms, "turnId", text_value(turn_id));
    proof {
        assert(member_shapes(ms@) =~= seq![
            ("threadId"@, JsonShape::Str(thread_id@)),
            ("turnId"@, JsonShape::Str(turn_id@)),
        ]);
    }
    object_of(ms)
}

/// The parameters of `thread/start`.
pub open spec fn thread_start(cwd: Seq<char>, model: Seq<char>, service_tier: Option<Seq<char>>) -> JsonShape {
    JsonShape::Object(
        seq![
            ("model"@, JsonShape::Str(model)),
            ("serviceTier"@, text_or_null(service_tier)),
            ("cwd"@, JsonShape::Str(cwd)),
            ("approvalPolicy"@, JsonShape::Str("never"@)),
            ("sandbox"@, JsonShape::Str("danger-full-access"@)),
            ("developerInstructions"@, JsonShape::Str(inbox_instructions())),
            ("personality"@, JsonShape::Str("friendly"@)),
        ],
    )
}

fn instructions() -> (v: JsonValue)
    ensures
        shape(v) == JsonShape::Str(inbox_instructions()),
{
    text_value(
        "When you have a useful question, uncertainty, or optional decision that would help but does not need to block progress, add a standalone line to your next assistant message in exactly this form: [[inbox-question]] <question>. Then continue with your best assumption. Keep inbox questions short and concrete. Only use blocking request_user_input when you truly cannot proceed safely or correctly without the user's answer.",
    )
}

/// The parameters of `thread/start` for a workspace and a model.
pub fn thread_start_params(cwd: &str, model: &str, service_tier: &Option<String>) -> (v: JsonValue)
    ensures
        shape(v) == thread_start(cwd@, model@, opt_text(*service_tier)),
{
    let mut ms: Vec<JsonMember> = Vec::new();
    push_member(&mut ms, "model", text_value(model));
    push_member(&mut ms, "serviceTier", opt_value(service_tier));
    push_member(&mut ms, "cwd", text_value(cwd));
    push_member(&mut ms, "approvalPolicy", text_value("never"));
    push_member(&mut ms, "sandbox", text_value("danger-full-access"));
    push_member(&mut ms, "developerInstructions", instructions());
    push_member(&mut ms, "personality", text_value("friendly"));
    proof {
        assert(member_shapes(ms@) =~= seq![
            ("model"@, JsonShape::Str(model@)),
            ("serviceTier"@, text_or_null(opt_text(*service_tier))),
            ("cwd"@, JsonShape::Str(cwd@)),
            ("approvalPolicy"@, JsonShape::Str("never"@)),
            ("sandbox"@, JsonShape::Str("danger-full-access"@)),
            ("developerInstructions"@, JsonShape::Str(inbox_instructions())),
            ("personality"@, JsonShape::Str("friendly"@)),
        ]);
    }
    object_of(ms)
}

/// The parameters of `thread/resume`.
pub open spec fn thread_resume(thread_id: Seq<char>, service_tier: Option<Seq<char>>) -> JsonShape {
    JsonShape::Object(
        seq![
            ("threadId"@, JsonShape::Str(thread_id)),
            ("serviceTier"@, text_or_null(service_tier)),
            ("developerInstructions"@, JsonShape::Str(inbox_instructions())),
            ("personality"@, JsonShape::Str("friendly"@)),
        ],
    )
}

/// The parameters of `thread/resume` for a thread.
pub fn thread_resume_params(thread_id: &str, service_tier: &Option<String>) -> (v: JsonValue)
    ensures
        shape(v) == thread_resume(thread_id@, opt_text(*service_tier)),
{
    let mut ms: Vec<JsonMember> = Vec::new();
    push_member(&mut ms, "threadId", text_value(thread_id));
    push_member(&mut ms, "serviceTier", opt_value(service_tier));
    push_member(&mut ms, "developerInstructions", instructions());
    push_member(&mut ms, "personality", text_value("friendly"));
    proof {
        assert(member_shapes(ms@) =~= seq![
            ("threadId"@, JsonShape::Str(thread_id@)),
            ("serviceTier"@, text_or_null(opt_text(*service_tier))),
            ("developerInstructions"@, JsonShape::Str(inbox_instructions())),
            ("personality"@, JsonShape::Str("friendly"@)),
        ]);
    }
    object_of(ms)
}

/// The parameters of `initialize`: the client's name, title and version,
/// and the experimental API switched on.
pub open spec fn initialize_shape(version: Seq<char>) -> JsonShape {
    JsonShape::Object(
        seq![
            (
                "clientInfo"@,
                JsonShape::Object(
                    seq![
                        ("name"@, JsonShape::Str("miawk"@)),
                        ("title"@, JsonShape::Str("MIAWK"@)),
                        ("version"@, JsonShape::Str(version)),
                    ],
                ),
            ),
            ("capabilities"@, JsonShape::Object(seq![("experimentalApi"@, JsonShape::Bool(true))])),
        ],
    )
}

/// The parameters of `initialize` for the client's version.
pub fn initialize_params(version: &str) -> (v: JsonValue)
    ensures
        shape(v) == initialize_shape(version@),
{
    let mut info: Vec<JsonMember> = Vec::new();
    push_member(&mut info, "name", text_value("miawk"));
    push_member(&mut info, "title", text_value("MIAWK"));
    push_member(&mut info, "version", text_value(version));
    let mut caps: Vec<JsonMember> = Vec::new();
    push_member(&mut caps, "experimentalApi", JsonValue::Bool(true));
    proof {
        assert(member_shapes(info@) =~= seq![
            ("name"@, JsonShape::Str("miawk"@)),
            ("title"@, JsonShape::Str("MIAWK"@)),
            ("version"@, JsonShape::Str(version@)),
        ]);
        assert(member_shapes(caps@) =~= seq![("experimentalApi"@, JsonShape::Bool(true))]);
    }
    let mut ms: Vec<JsonMember> = Vec::new();
    let info_value = object_of(info);
    let caps_value = object_of(caps);
    let ghost info_shape = shape(info_value);
    let ghost caps_shape = shape(caps_value);
    push_member(&mut ms, "clientInfo", info_value);
    push_member(&mut ms, "capabilities", caps_value);
    proof {
        assert(member_shapes(ms@) =~= seq![
            ("clientInfo"@, info_shape),
            ("capabilities"@, caps_shape),
        ]);
    }
    object_of(ms)
}

/// The parameters of `model/list`: up to a hundred models, hidden ones left
/// out.
pub fn model_list_params() -> (v: JsonValue)
    ensures
        shape(v) == JsonShape::Object(
            seq![("limit"@, JsonShape::Unsigned(100)), ("includeHidden"@, JsonShape::Bool(false))],
        ),
{
    let mut ms: Vec<JsonMember> = Vec::new();
    push_member(&mut ms, "limit", JsonValue::Number(JsonNumber::Unsigned(100)));
    push_member(&mut ms, "includeHidden", JsonValue::Bool(false));
    proof {
        assert(member_shapes(ms@) =~= seq![
            ("limit"@, JsonShape::Unsigned(100)),
            ("includeHidden"@, JsonShape::Bool(false)),
        ]);
    }
    object_of(ms)
}

/// The parameters of `thread/read` for a thread, with its turns.
pub fn thread_read_params(thread_id: &str) -> (v: JsonValue)
    ensures
        shape(v) == JsonShape::Object(
            seq![("threadId"@, JsonShape::Str(thread_id@)), ("includeTurns"@, JsonShape::Bool(true))],
        ),
{
    let mut ms: Vec<JsonMember> = Vec::new();
    push_member(&mut ms, "threadId", text_value(thread_id));
    push_member(&mut ms, "includeTurns", JsonValue::Bool(true));
    proof {
        assert(member_shapes(ms@) =~= seq![
            ("threadId"@, JsonShape::Str(thread_id@)),
            ("includeTurns"@, JsonShape::Bool(true)),
        ]);
    }
    object_of(ms)
}

/// The answer to the app-server's token refresh request, from the tokens of
/// the Codex home's auth file, or what is missing from them.
pub open spec fn refresh_answer(tokens: Option<AuthTokens>) -> Result<JsonShape, Seq<char>> {
    match tokens {
        None => Err("Codex auth file had no ChatGPT tokens to refresh."@),
        Some(t) => match opt_text(t.access_token) {
            None => Err("Codex auth file had no ChatGPT access token."@),
            Some(access) => match opt_text(t.account_id) {
                None => Err("Codex auth file had no ChatGPT account id."@),
                Some(account) => Ok(
                    JsonShape::Object(
                        seq![
                            ("accessToken"@, JsonShape::Str(access)),
                            ("chatgptAccountId"@, JsonShape::Str(account)),
                            ("chatgptPlanType"@, JsonShape::Null),
                        ],
                    ),
                ),
            },
        },
    }
}

/// The answer to the app-server's token refresh request.
pub fn chatgpt_refresh_response(tokens: &Option<AuthTokens>) -> (r: Result<JsonValue, String>)
    ensures
        match r {
            Ok(v) => refresh_answer(*tokens) == Ok::<JsonShape, Seq<char>>(shape(v)),
            Err(e) => refresh_answer(*tokens) == Err::<JsonShape, Seq<char>>(e@),
        },
{
    proof {
        reveal_strlit("Codex auth file had no ChatGPT tokens to refresh.");
        reveal_strlit("Codex auth file had no ChatGPT access token.");
        reveal_strlit("Codex auth file had no ChatGPT account id.");
    }
    let t = match tokens {
        Some(t) => t,
        None => return Err(String::from_str("Codex auth file had no ChatGPT tokens to refresh.")),
    };
    let access = match &t.access_token {
        Some(a) => a,
        None => return Err(String::from_str("Codex auth file had no ChatGPT access token.")),
    };
    let account = match &t.account_id {
        Some(a) => a,
        None => return Err(String::from_str("Codex auth file had no ChatGPT account id.")),
    };
    let mut ms: Vec<JsonMember> = Vec::new();
    push_member(&mut ms, "accessToken", str_value(access.clone()));
    push_member(&mut ms, "chatgptAccountId", str_value(account.clone()));
    push_member(&mut ms, "chatgptPlanType", JsonValue::Null);
    proof {
        assert(member_shapes(ms@) =~= seq![
            ("accessToken"@, JsonShape::Str(access@)),
            ("chatgptAccountId"@, JsonShape::Str(account@)),
            ("chatgptPlanType"@, JsonShape::Null),
        ]);
    }
    Ok(object_of(ms))
}

} // verus!
