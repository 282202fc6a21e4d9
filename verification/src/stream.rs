//! What the app-server's messages mean for the chat: titles and details of
//! tool calls, the events read from thread items, the reply text of a
//! finished thread, and which errors call for a fresh thread or another
//! account.
use vstd::prelude::*;

use crate::json::{
    at_path, bool_of, items_of, member2, member_of, str_at, str_member, str_of, JsonMember, JsonValue,
};
use crate::runtime::{
    event_views, opt_text, state_views, string_views, AgentStateView, ChatModelInfo,
    ChatReasoningEffortInfo, ChatStreamEvent, ChatStreamEventView, CollabAgentStateInfo,
    EffortView, ModelView,
};
use crate::text::{
    chars_of, decimal, dot_sep, extend_chars, has_sub, has_sub_exec, join, join_chars, lower,
    lower_chars, push_decimal, string_from, text_eq, trim, trim_chars,
};

verus! {

/// The title of a swarm tool call.
pub open spec fn collab_title(tool: Seq<char>, n: nat, complete: bool) -> Seq<char> {
    if tool == "spawnAgent"@ {
        if complete {
            "Spawned agent"@
        } else {
            "Spawning agent"@
        }
    } else if tool == "sendInput"@ {
        if complete {
            "Sent input to agent"@
        } else {
            "Sending input to agent"@
        }
    } else if tool == "resumeAgent"@ {
        if complete {
            "Resumed agent"@
        } else {
            "Resuming agent"@
        }
    } else if tool == "wait"@ {
        if complete {
            "Finished waiting"@
        } else if n == 1 {
            "Waiting for agent"@
        } else {
            "Waiting for "@ + decimal(n) + " agents"@
        }
    } else if tool == "closeAgent"@ {
        if complete {
            "Closed agent"@
        } else {
            "Closing agent"@
        }
    } else if complete {
        "Completed swarm tool"@
    } else {
        "Running swarm tool"@
    }
}

/// The title with the agent's label in front, when there is one.
pub open spec fn prefixed(prefix: Option<Seq<char>>, title: Seq<char>) -> Seq<char> {
    match prefix {
        Some(p) => p + dot_sep() + title,
        None => title,
    }
}

/// The error says that a thread was not found.
pub open spec fn mentions_missing_thread(error: Seq<char>) -> bool {
    has_sub(lower(error), "thread"@) && has_sub(lower(error), "not found"@)
}

/// The error says that the account cannot go on: a usage or rate limit, or
/// credentials that were refused or expired.
pub open spec fn calls_for_failover(error: Seq<char>) -> bool {
    let l = lower(error);
    has_sub(l, "usage limit"@) || has_sub(l, "rate limit"@) || has_sub(l, "unauthorized"@)
        || has_sub(l, "forbidden"@) || has_sub(l, "expired"@)
}

/// The text of `o`, or the empty text.
pub open spec fn or_empty(o: Option<Seq<char>>) -> Seq<char> {
    match o {
        Some(s) => s,
        None => Seq::empty(),
    }
}

/// The first element of the array `v`, when it is a string.
pub open spec fn first_str(v: Option<JsonValue>) -> Option<Seq<char>> {
    match items_of(v) {
        Some(xs) => if xs.len() > 0 {
            str_of(Some(xs[0]))
        } else {
            None
        },
        None => None,
    }
}

/// What a web search item shows: the searched text, the opened page, or the
/// pattern looked for in a page; the item's query otherwise.
pub open spec fn web_search_detail(item: JsonValue) -> Seq<char> {
    let query = or_empty(str_at(item, "query"@));
    match member_of(item, "action"@) {
        None => query,
        Some(action) => {
            let t = str_at(action, "type"@);
            if t == Some("search"@) {
                let q = str_at(action, "query"@);
                if q is Some && q->0.len() > 0 {
                    q->0
                } else {
                    match first_str(member_of(action, "queries"@)) {
                        Some(s) => s,
                        None => query,
                    }
                }
            } else if t == Some("openPage"@) {
                or_empty(str_at(action, "url"@))
            } else if t == Some("findInPage"@) {
                let pattern = str_at(action, "pattern"@);
                let url = str_at(action, "url"@);
                match (pattern, url) {
                    (Some(p), Some(u)) => seq!['\''] + p + "' in "@ + u,
                    (Some(p), None) => seq!['\''] + p + seq!['\''],
                    (None, Some(u)) => u,
                    (None, None) => query,
                }
            } else {
                query
            }
        },
    }
}

/// `o` when it is a non-empty text.
pub open spec fn non_empty(o: Option<Seq<char>>) -> Option<Seq<char>> {
    match o {
        Some(s) => if s.len() > 0 {
            Some(s)
        } else {
            None
        },
        None => None,
    }
}

/// `parts` with `o` added when there is one.
pub open spec fn push_some(parts: Seq<Seq<char>>, o: Option<Seq<char>>) -> Seq<Seq<char>> {
    match o {
        Some(s) => parts.push(s),
        None => parts,
    }
}

/// The number of elements of the array `v`, or zero.
pub open spec fn array_len(v: Option<JsonValue>) -> nat {
    match items_of(v) {
        Some(xs) => xs.len(),
        None => 0,
    }
}

/// The prompt, model, effort and number of targets of a swarm tool call,
/// joined by " · ".
pub open spec fn collab_detail(item: JsonValue) -> Seq<char> {
    let prompt = match str_at(item, "prompt"@) {
        Some(p) => non_empty(Some(trim(p))),
        None => None,
    };
    let n = array_len(member_of(item, "receiverThreadIds"@));
    let parts = push_some(
        push_some(
            push_some(Seq::empty(), prompt),
            non_empty(str_at(item, "model"@)),
        ),
        non_empty(str_at(item, "reasoningEffort"@)),
    );
    let parts = if n > 1 {
        parts.push(decimal(n) + " targets"@)
    } else {
        parts
    };
    join(parts, dot_sep())
}

/// The strings among `xs`, in order.
pub open spec fn strings_in(xs: Seq<JsonValue>) -> Seq<Seq<char>>
    decreases xs.len(),
{
    if xs.len() == 0 {
        Seq::empty()
    } else {
        let rest = strings_in(xs.drop_last());
        match str_of(Some(xs.last())) {
            Some(s) => rest.push(s),
            None => rest,
        }
    }
}

/// The agent states reported by the members of an object, in order; a
/// missing status counts as running.
pub open spec fn states_in(ms: Seq<JsonMember>) -> Seq<AgentStateView>
    decreases ms.len(),
{
    if ms.len() == 0 {
        Seq::empty()
    } else {
        let m = ms.last();
        states_in(ms.drop_last()).push(
            AgentStateView {
                thread_id: m.key@,
                status: match str_at(m.value, "status"@) {
                    Some(s) => s,
                    None => "running"@,
                },
                message: str_at(m.value, "message"@),
            },
        )
    }
}

/// The event of a swarm tool call item, if the item is one and has an id
/// and a tool.
pub open spec fn collab_event(item: JsonValue, complete: bool) -> Option<ChatStreamEventView> {
    if str_at(item, "type"@) != Some("collabAgentToolCall"@) {
        None
    } else {
        match (str_at(item, "id"@), str_at(item, "tool"@)) {
            (Some(id), Some(tool)) => {
                let receivers = match items_of(member_of(item, "receiverThreadIds"@)) {
                    Some(xs) => strings_in(xs),
                    None => Seq::empty(),
                };
                let states = match member_of(item, "agentsStates"@) {
                    Some(JsonValue::Object(ms)) => states_in(ms@),
                    _ => Seq::empty(),
                };
                Some(
                    ChatStreamEventView::CollabTool {
                        item_id: id,
                        title: collab_title(tool, receivers.len(), complete),
                        detail: collab_detail(item),
                        agent_label: None,
                        tool: tool,
                        sender_thread_id: or_empty(str_at(item, "senderThreadId"@)),
                        receiver_thread_ids: receivers,
                        model: str_at(item, "model"@),
                        reasoning_effort: str_at(item, "reasoningEffort"@),
                        agent_states: states,
                        complete: complete,
                    },
                )
            },
            _ => None,
        }
    }
}

/// The id, title and detail of a web search item, with the given title.
pub open spec fn web_activity(item: JsonValue, title: Seq<char>) -> Option<
    (Seq<char>, Seq<char>, Seq<char>),
> {
    match (str_at(item, "id"@), str_at(item, "type"@)) {
        (Some(id), Some(t)) => if t == "webSearch"@ {
            Some((id, title, web_search_detail(item)))
        } else {
            None
        },
        _ => None,
    }
}

/// The trimmed, non-empty texts of the agent messages among `items`.
pub open spec fn agent_texts(items: Seq<JsonValue>) -> Seq<Seq<char>>
    decreases items.len(),
{
    if items.len() == 0 {
        Seq::empty()
    } else {
        let rest = agent_texts(items.drop_last());
        let it = items.last();
        if str_at(it, "type"@) == Some("agentMessage"@) && str_at(it, "text"@) is Some && trim(
            str_at(it, "text"@)->0,
        ).len() > 0 {
            rest.push(trim(str_at(it, "text"@)->0))
        } else {
            rest
        }
    }
}

/// The agent messages of the last turn of a thread, joined by blank lines.
pub open spec fn latest_reply(thread: JsonValue) -> Option<Seq<char>> {
    match items_of(at_path(thread, seq!["thread"@, "turns"@])) {
        Some(turns) => if turns.len() > 0 {
            match items_of(member_of(turns.last(), "items"@)) {
                Some(items) => {
                    let replies = agent_texts(items);
                    if replies.len() == 0 {
                        None
                    } else {
                        Some(join(replies, seq!['\n', '\n']))
                    }
                },
                None => None,
            }
        } else {
            None
        },
        None => None,
    }
}

fn lit(s: &str) -> (v: Vec<char>)
    ensures
        v@ == s@,
{
    chars_of(s)
}

fn dot_separator() -> (r: Vec<char>)
    ensures
        r@ == dot_sep(),
{
    let mut r: Vec<char> = Vec::new();
    r.push(' ');
    r.push('\u{b7}');
    r.push(' ');
    proof {
        assert(r@ == dot_sep());
    }
    r
}

/// The title of a swarm tool call.
pub fn collab_tool_title(tool: &str, receiver_count: usize, complete: bool) -> (r: String)
    ensures
        r@ == collab_title(tool@, receiver_count as nat, complete),
{
    if text_eq(tool, "spawnAgent") {
        if complete {
            "Spawned agent".to_owned()
        } else {
            "Spawning agent".to_owned()
        }
    } else if text_eq(tool, "sendInput") {
        if complete {
            "Sent input to agent".to_owned()
        } else {
            "Sending input to agent".to_owned()
        }
    } else if text_eq(tool, "resumeAgent") {
        if complete {
            "Resumed agent".to_owned()
        } else {
            "Resuming agent".to_owned()
        }
    } else if text_eq(tool, "wait") {
        if complete {
            "Finished waiting".to_owned()
        } else if receiver_count == 1 {
            "Waiting for agent".to_owned()
        } else {
            let mut v = lit("Waiting for ");
            push_decimal(&mut v, receiver_count as u64);
            extend_chars(&mut v, &lit(" agents"));
            string_from(&v)
        }
    } else if text_eq(tool, "closeAgent") {
        if complete {
            "Closed agent".to_owned()
        } else {
            "Closing agent".to_owned()
        }
    } else if complete {
        "Completed swarm tool".to_owned()
    } else {
        "Running swarm tool".to_owned()
    }
}

/// The title with `prefix` and " · " in front, when there is a prefix.
pub fn prefix_title(prefix: Option<String>, title: String) -> (r: String)
    ensures
        r@ == prefixed(opt_text(prefix), title@),
{
    match prefix {
        Some(p) => {
            let mut v = chars_of(p.as_str());
            extend_chars(&mut v, &dot_separator());
            extend_chars(&mut v, &chars_of(title.as_str()));
            string_from(&v)
        },
        None => title,
    }
}

/// Whether the error says that a thread was not found.
pub fn error_mentions_missing_thread(error: &str) -> (b: bool)
    ensures
        b == mentions_missing_thread(error@),
{
    let l = lower_chars(&chars_of(error));
    has_sub_exec(&l, &lit("thread")) && has_sub_exec(&l, &lit("not found"))
}

/// Whether the error calls for switching to another account.
pub fn should_failover_account(error: &str) -> (b: bool)
    ensures
        b == calls_for_failover(error@),
{
    let l = lower_chars(&chars_of(error));
    has_sub_exec(&l, &lit("usage limit")) || has_sub_exec(&l, &lit("rate limit")) || has_sub_exec(
        &l,
        &lit("unauthorized"),
    ) || has_sub_exec(&l, &lit("forbidden")) || has_sub_exec(&l, &lit("expired"))
}

fn str_or_empty(o: Option<&str>) -> (r: Vec<char>)
    ensures
        r@ == or_empty(
            match o {
                Some(s) => Some(s@),
                None => None,
            },
        ),
{
    match o {
        Some(s) => chars_of(s),
        None => Vec::new(),
    }
}

/// What a web search item shows.
pub fn web_search_detail_from_item(item: &JsonValue) -> (r: String)
    ensures
        r@ == web_search_detail(*item),
{
    let query = str_or_empty(str_member(item, "query"));
    let action = match item.get("action") {
        Some(a) => a,
        None => {
            return string_from(&query);
        },
    };
    let t = str_member(action, "type");
    let is = |name: &str| -> (b: bool)
        ensures
            b == (match t {
                Some(x) => x@ == name@,
                None => false,
            }),
        {
            match t {
                Some(x) => text_eq(x, name),
                None => false,
            }
        };
    if is("search") {
        match str_member(action, "query") {
            Some(q) => {
                if !q.is_empty() {
                    return q.to_owned();
                }
            },
            None => {},
        }
        let first = match action.get("queries") {
            Some(qs) => match qs.as_array() {
                Some(xs) => if xs.len() > 0 {
                    xs[0].as_str()
                } else {
                    None
                },
                None => None,
            },
            None => None,
        };
        match first {
            Some(s) => s.to_owned(),
            None => string_from(&query),
        }
    } else if is("openPage") {
        string_from(&str_or_empty(str_member(action, "url")))
    } else if is("findInPage") {
        let pattern = str_member(action, "pattern");
        let url = str_member(action, "url");
        match (pattern, url) {
            (Some(p), Some(u)) => {
                let mut v: Vec<char> = Vec::new();
                v.push('\'');
                extend_chars(&mut v, &chars_of(p));
                extend_chars(&mut v, &lit("' in "));
                extend_chars(&mut v, &chars_of(u));
                proof {
                    assert(v@ =~= seq!['\''] + p@ + "' in "@ + u@);
                }
                string_from(&v)
            },
            (Some(p), None) => {
                let mut v: Vec<char> = Vec::new();
                v.push('\'');
                extend_chars(&mut v, &chars_of(p));
                v.push('\'');
                proof {
                    assert(v@ =~= seq!['\''] + p@ + seq!['\'']);
                }
                string_from(&v)
            },
            (None, Some(u)) => u.to_owned(),
            (None, None) => string_from(&query),
        }
    } else {
        string_from(&query)
    }
}

fn opt_chars(o: Option<&str>) -> (r: Option<Vec<char>>)
    ensures
        match r {
            Some(v) => o is Some && v@ == o->0@,
            None => o is None,
        },
{
    match o {
        Some(s) => Some(chars_of(s)),
        None => None,
    }
}

/// The prompt, model, effort and number of targets of a swarm tool call.
pub fn collab_tool_detail_from_item(item: &JsonValue) -> (r: String)
    ensures
        r@ == collab_detail(*item),
{
    let mut parts: Vec<Vec<char>> = Vec::new();
    let ghost mut pv: Seq<Seq<char>> = Seq::empty();
    match str_member(item, "prompt") {
        Some(p) => {
            let t = trim_chars(&chars_of(p));
            if t.len() > 0 {
                parts.push(t);
            }
        },
        None => {},
    }
    proof {
        let prompt = match str_at(*item, "prompt"@) {
            Some(p) => non_empty(Some(trim(p))),
            None => None,
        };
        assert(parts@.map_values(|p: Vec<char>| p@) =~= push_some(Seq::empty(), prompt));
        pv = push_some(Seq::empty(), prompt);
    }
    match str_member(item, "model") {
        Some(m) => {
            if !m.is_empty() {
                parts.push(chars_of(m));
            }
        },
        None => {},
    }
    proof {
        assert(parts@.map_values(|p: Vec<char>| p@) =~= push_some(
            pv,
            non_empty(str_at(*item, "model"@)),
        ));
        pv = push_some(pv, non_empty(str_at(*item, "model"@)));
    }
    match str_member(item, "reasoningEffort") {
        Some(m) => {
            if !m.is_empty() {
                parts.push(chars_of(m));
            }
        },
        None => {},
    }
    proof {
        assert(parts@.map_values(|p: Vec<char>| p@) =~= push_some(
            pv,
            non_empty(str_at(*item, "reasoningEffort"@)),
        ));
        pv = push_some(pv, non_empty(str_at(*item, "reasoningEffort"@)));
    }
    let n: usize = match item.get("receiverThreadIds") {
        Some(r) => match r.as_array() {
            Some(xs) => xs.len(),
            None => 0,
        },
        None => 0,
    };
    if n > 1 {
        let mut t: Vec<char> = Vec::new();
        push_decimal(&mut t, n as u64);
        extend_chars(&mut t, &lit(" targets"));
        parts.push(t);
        proof {
            assert(Seq::<char>::empty() + decimal(n as nat) + " targets"@ == decimal(n as nat)
                + " targets"@);
            assert(parts@.map_values(|p: Vec<char>| p@) =~= pv.push(decimal(n as nat) + " targets"@));
        }
    }
    let j = join_chars(&parts, &dot_separator());
    string_from(&j)
}

/// The strings among the elements of an array.
fn strings_of(xs: &Vec<JsonValue>) -> (r: Vec<String>)
    ensures
        string_views(r@) == strings_in(xs@),
{
    let mut r: Vec<String> = Vec::new();
    for i in 0..xs.len()
        invariant
            string_views(r@) == strings_in(xs@.take(i as int)),
    {
        proof {
            assert(xs@.take(i + 1).drop_last() == xs@.take(i as int));
            assert(xs@.take(i + 1).last() == xs@[i as int]);
        }
        match xs[i].as_str() {
            Some(s) => {
                let ghost before = r@;
                r.push(s.to_owned());
                proof {
                    assert(string_views(r@) =~= string_views(before).push(s@));
                }
            },
            None => {},
        }
    }
    proof {
        assert(xs@.take(xs.len() as int) == xs@);
    }
    r
}

/// The agent states reported by the members of an object.
fn states_of(ms: &Vec<JsonMember>) -> (r: Vec<CollabAgentStateInfo>)
    ensures
        state_views(r@) == states_in(ms@),
{
    let mut r: Vec<CollabAgentStateInfo> = Vec::new();
    for i in 0..ms.len()
        invariant
            state_views(r@) == states_in(ms@.take(i as int)),
    {
        proof {
            assert(ms@.take(i + 1).drop_last() == ms@.take(i as int));
            assert(ms@.take(i + 1).last() == ms@[i as int]);
        }
        let m = &ms[i];
        let status = match str_member(&m.value, "status") {
            Some(s) => s.to_owned(),
            None => "running".to_owned(),
        };
        let message = match str_member(&m.value, "message") {
            Some(s) => Some(s.to_owned()),
            None => None,
        };
        let ghost before = r@;
        r.push(CollabAgentStateInfo { thread_id: m.key.clone(), status, message });
        proof {
            assert(state_views(r@) =~= states_in(ms@.take(i + 1)));
        }
    }
    proof {
        assert(ms@.take(ms.len() as int) == ms@);
    }
    r
}

/// The event of a swarm tool call item.
pub fn collab_tool_from_item(item: &JsonValue, complete: bool) -> (r: Option<ChatStreamEvent>)
    ensures
        match r {
            Some(e) => collab_event(*item, complete) == Some(e@),
            None => collab_event(*item, complete) is None,
        },
{
    let t = match str_member(item, "type") {
        Some(t) => t,
        None => {
            return None;
        },
    };
    if !text_eq(t, "collabAgentToolCall") {
        return None;
    }
    let item_id = match str_member(item, "id") {
        Some(s) => s.to_owned(),
        None => {
            return None;
        },
    };
    let tool = match str_member(item, "tool") {
        Some(s) => s.to_owned(),
        None => {
            return None;
        },
    };
    let sender = string_from(&str_or_empty(str_member(item, "senderThreadId")));
    let receivers: Vec<String> = match item.get("receiverThreadIds") {
        Some(r) => match r.as_array() {
            Some(xs) => strings_of(xs),
            None => Vec::new(),
        },
        None => Vec::new(),
    };
    let states: Vec<CollabAgentStateInfo> = match item.get("agentsStates") {
        Some(JsonValue::Object(ms)) => states_of(ms),
        _ => Vec::new(),
    };
    proof {
        assert(string_views(Seq::<String>::empty()) =~= Seq::<Seq<char>>::empty());
        assert(state_views(Seq::<CollabAgentStateInfo>::empty()) =~= Seq::<AgentStateView>::empty());
    }
    let detail = collab_tool_detail_from_item(item);
    let title = collab_tool_title(tool.as_str(), receivers.len(), complete);
    let model = match str_member(item, "model") {
        Some(s) => Some(s.to_owned()),
        None => None,
    };
    let reasoning_effort = match str_member(item, "reasoningEffort") {
        Some(s) => Some(s.to_owned()),
        None => None,
    };
    let e = ChatStreamEvent::CollabTool {
        item_id,
        title,
        detail,
        agent_label: None,
        tool,
        sender_thread_id: sender,
        receiver_thread_ids: receivers,
        model,
        reasoning_effort,
        agent_states: states,
        complete,
    };
    proof {
        let ev = collab_event(*item, complete);
        assert(ev == Some(e@));
    }
    Some(e)
}

/// The id, title and detail of a web search item, with the given title.
fn web_activity_from_item(item: &JsonValue, title: &str) -> (r: Option<(String, String, String)>)
    ensures
        match r {
            Some(x) => web_activity(*item, title@) == Some((x.0@, x.1@, x.2@)),
            None => web_activity(*item, title@) is None,
        },
{
    let item_id = match str_member(item, "id") {
        Some(s) => s.to_owned(),
        None => {
            return None;
        },
    };
    match str_member(item, "type") {
        Some(t) => {
            if text_eq(t, "webSearch") {
                Some((item_id, title.to_owned(), web_search_detail_from_item(item)))
            } else {
                None
            }
        },
        None => None,
    }
}

/// The web search that an item started, if it is one.
pub fn activity_started_from_item(item: &JsonValue) -> (r: Option<(String, String, String)>)
    ensures
        match r {
            Some(x) => web_activity(*item, "Searching the web"@) == Some((x.0@, x.1@, x.2@)),
            None => web_activity(*item, "Searching the web"@) is None,
        },
{
    web_activity_from_item(item, "Searching the web")
}

/// The web search that an item finished, if it is one.
pub fn activity_completed_from_item(item: &JsonValue) -> (r: Option<(String, String, String)>)
    ensures
        match r {
            Some(x) => web_activity(*item, "Searched the web"@) == Some((x.0@, x.1@, x.2@)),
            None => web_activity(*item, "Searched the web"@) is None,
        },
{
    web_activity_from_item(item, "Searched the web")
}

/// The agent messages of the last turn of a thread, joined by blank lines.
pub fn extract_latest_assistant_reply(thread: &JsonValue) -> (r: Option<String>)
    ensures
        opt_text(r) == latest_reply(*thread),
{
    let turns = match member2(thread, "thread", "turns") {
        Some(t) => match t.as_array() {
            Some(xs) => xs,
            None => {
                return None;
            },
        },
        None => {
            return None;
        },
    };
    if turns.len() == 0 {
        return None;
    }
    let last = &turns[turns.len() - 1];
    let items = match last.get("items") {
        Some(i) => match i.as_array() {
            Some(xs) => xs,
            None => {
                return None;
            },
        },
        None => {
            return None;
        },
    };
    let mut replies: Vec<Vec<char>> = Vec::new();
    for i in 0..items.len()
        invariant
            replies@.map_values(|p: Vec<char>| p@) == agent_texts(items@.take(i as int)),
    {
        proof {
            assert(items@.take(i + 1).drop_last() == items@.take(i as int));
            assert(items@.take(i + 1).last() == items@[i as int]);
        }
        let it = &items[i];
        let is_message = match str_member(it, "type") {
            Some(t) => text_eq(t, "agentMessage"),
            None => false,
        };
        if is_message {
            match str_member(it, "text") {
                Some(text) => {
                    let t = trim_chars(&chars_of(text));
                    if t.len() > 0 {
                        let ghost before = replies@;
                        replies.push(t);
                        proof {
                            assert(replies@.map_values(|p: Vec<char>| p@) =~= before.map_values(
                                |p: Vec<char>| p@,
                            ).push(trim(text@)));
                        }
                    }
                },
                None => {},
            }
        }
    }
    proof {
        assert(items@.take(items.len() as int) == items@);
    }
    if replies.len() == 0 {
        return None;
    }
    let mut sep: Vec<char> = Vec::new();
    sep.push('\n');
    sep.push('\n');
    proof {
        assert(sep@ =~= seq!['\n', '\n']);
    }
    let j = join_chars(&replies, &sep);
    Some(string_from(&j))
}


/// The reasoning effort an entry of a model's list describes, if it names
/// one.
pub open spec fn effort_entry(e: JsonValue) -> Option<EffortView> {
    match str_at(e, "reasoningEffort"@) {
        Some(v) => Some(EffortView { effort: v, description: or_empty(str_at(e, "description"@)) }),
        None => None,
    }
}

/// The model an entry of the model list describes, if it has an id.
pub open spec fn model_entry(m: JsonValue) -> Option<ModelView> {
    match str_at(m, "id"@) {
        None => None,
        Some(id) => Some(
            ModelView {
                id,
                display_name: match str_at(m, "displayName"@) {
                    Some(d) => d,
                    None => id,
                },
                description: or_empty(str_at(m, "description"@)),
                default_effort: str_at(m, "defaultReasoningEffort"@),
                supported_efforts: match items_of(member_of(m, "supportedReasoningEfforts"@)) {
                    Some(xs) => xs.filter_map(|e: JsonValue| effort_entry(e)),
                    None => Seq::empty(),
                },
                is_default: match bool_of(member_of(m, "isDefault"@)) {
                    Some(b) => b,
                    None => false,
                },
            },
        ),
    }
}

/// The models a `model/list` response offers, or why it offers none.
pub open spec fn model_list(response: JsonValue) -> Result<Seq<ModelView>, Seq<char>> {
    match items_of(member_of(response, "data"@)) {
        Some(xs) => Ok(xs.filter_map(|m: JsonValue| model_entry(m))),
        None => Err("Codex app-server did not return a model list."@),
    }
}

fn owned_or_empty(o: Option<&str>) -> (r: String)
    ensures
        r@ == or_empty(match o {
            Some(s) => Some(s@),
            None => None,
        }),
{
    match o {
        Some(s) => String::from_str(s),
        None => String::new(),
    }
}

fn effort_from_entry(e: &JsonValue) -> (r: Option<ChatReasoningEffortInfo>)
    ensures
        match r {
            Some(x) => effort_entry(*e) == Some(x@),
            None => effort_entry(*e) is None,
        },
{
    proof {
        reveal_strlit("reasoningEffort");
        reveal_strlit("description");
    }
    match str_member(e, "reasoningEffort") {
        None => None,
        Some(v) => {
            let description = owned_or_empty(str_member(e, "description"));
            Some(ChatReasoningEffortInfo { effort: String::from_str(v), description })
        },
    }
}

fn efforts_from(xs: &Vec<JsonValue>) -> (r: Vec<ChatReasoningEffortInfo>)
    ensures
        r@.map_values(|x: ChatReasoningEffortInfo| x@) == xs@.filter_map(
            |e: JsonValue| effort_entry(e),
        ),
{
    let ghost f = |e: JsonValue| effort_entry(e);
    let mut out: Vec<ChatReasoningEffortInfo> = Vec::new();
    let mut i: usize = 0;
    while i < xs.len()
        invariant
            i <= xs@.len(),
            f == (|e: JsonValue| effort_entry(e)),
            out@.map_values(|x: ChatReasoningEffortInfo| x@) == xs@.take(i as int).filter_map(f),
        decreases xs@.len() - i,
    {
        proof {
            xs@.lemma_filter_map_take_succ(f, i as int);
        }
        let ghost before = out@;
        match effort_from_entry(&xs[i]) {
            Some(x) => {
                out.push(x);
                proof {
                    assert(out@.map_values(|x: ChatReasoningEffortInfo| x@) == before.map_values(
                        |x: ChatReasoningEffortInfo| x@,
                    ) + seq![x@]);
                }
            },
            None => {},
        }
        i = i + 1;
    }
    proof {
        assert(xs@.take(xs@.len() as int) == xs@);
    }
    out
}

fn model_from_entry(m: &JsonValue) -> (r: Option<ChatModelInfo>)
    ensures
        match r {
            Some(x) => model_entry(*m) == Some(x@),
            None => model_entry(*m) is None,
        },
{
    proof {
        reveal_strlit("id");
        reveal_strlit("displayName");
        reveal_strlit("description");
        reveal_strlit("defaultReasoningEffort");
        reveal_strlit("supportedReasoningEfforts");
        reveal_strlit("isDefault");
    }
    let id = match str_member(m, "id") {
        Some(s) => String::from_str(s),
        None => return None,
    };
    let display_name = match str_member(m, "displayName") {
        Some(d) => String::from_str(d),
        None => id.clone(),
    };
    let description = owned_or_empty(str_member(m, "description"));
    let default_effort = match str_member(m, "defaultReasoningEffort") {
        Some(d) => Some(String::from_str(d)),
        None => None,
    };
    let supported_efforts = match m.get("supportedReasoningEfforts") {
        Some(v) => match v.as_array() {
            Some(xs) => efforts_from(xs),
            None => Vec::new(),
        },
        None => Vec::new(),
    };
    let is_default = match m.get("isDefault") {
        Some(v) => match v.as_bool() {
            Some(b) => b,
            None => false,
        },
        None => false,
    };
    let r = ChatModelInfo {
        id,
        display_name,
        description,
        default_effort,
        supported_efforts,
        is_default,
    };
    proof {
        assert(r@.supported_efforts == match items_of(member_of(*m, "supportedReasoningEfforts"@)) {
            Some(xs) => xs.filter_map(|e: JsonValue| effort_entry(e)),
            None => Seq::empty(),
        });
    }
    Some(r)
}

/// The models that a `model/list` response offers: the entries of its
/// `data` array that have an id.
pub fn models_from_list_response(response: &JsonValue) -> (r: Result<Vec<ChatModelInfo>, String>)
    ensures
        match r {
            Ok(ms) => model_list(*response) == Ok::<Seq<ModelView>, Seq<char>>(
                ms@.map_values(|m: ChatModelInfo| m@),
            ),
            Err(e) => model_list(*response) == Err::<Seq<ModelView>, Seq<char>>(e@),
        },
{
    proof {
        reveal_strlit("data");
        reveal_strlit("Codex app-server did not return a model list.");
    }
    let xs = match response.get("data") {
        Some(v) => match v.as_array() {
            Some(xs) => xs,
            None => {
                return Err(String::from_str("Codex app-server did not return a model list."));
            },
        },
        None => return Err(String::from_str("Codex app-server did not return a model list.")),
    };
    let ghost f = |m: JsonValue| model_entry(m);
    let mut out: Vec<ChatModelInfo> = Vec::new();
    let mut i: usize = 0;
    while i < xs.len()
        invariant
            i <= xs@.len(),
            f == (|m: JsonValue| model_entry(m)),
            out@.map_values(|m: ChatModelInfo| m@) == xs@.take(i as int).filter_map(f),
        decreases xs@.len() - i,
    {
        proof {
            xs@.lemma_filter_map_take_succ(f, i as int);
        }
        let ghost before = out@;
        match model_from_entry(&xs[i]) {
            Some(x) => {
                out.push(x);
                proof {
                    assert(out@.map_values(|m: ChatModelInfo| m@) == before.map_values(
                        |m: ChatModelInfo| m@,
                    ) + seq![x@]);
                }
            },
            None => {},
        }
        i = i + 1;
    }
    proof {
        assert(xs@.take(xs@.len() as int) == xs@);
    }
    Ok(out)
}

/// The reply recovered from a thread comes from its last turn alone: two
/// threads whose turn lists end with the same turn give the same reply,
/// whatever turns come before; and a last turn whose items are one agent
/// message gives that message, trimmed, when it is not blank.
pub proof fn law_reply_comes_from_last_turn(
    a: JsonValue,
    b: JsonValue,
    ta: Seq<JsonValue>,
    tb: Seq<JsonValue>,
    msg: JsonValue,
    text: Seq<char>,
)
    requires
        items_of(at_path(a, seq!["thread"@, "turns"@])) == Some(ta),
        items_of(at_path(b, seq!["thread"@, "turns"@])) == Some(tb),
        ta.len() > 0,
        tb.len() > 0,
    ensures
        ta.last() == tb.last() ==> latest_reply(a) == latest_reply(b),
        items_of(member_of(ta.last(), "items"@)) == Some(seq![msg]) && str_at(msg, "type"@) == Some(
            "agentMessage"@,
        ) && str_at(msg, "text"@) == Some(text) && trim(text).len() > 0 ==> latest_reply(a) == Some(
            trim(text),
        ),
{
    if items_of(member_of(ta.last(), "items"@)) == Some(seq![msg]) && str_at(msg, "type"@) == Some(
        "agentMessage"@,
    ) && str_at(msg, "text"@) == Some(text) && trim(text).len() > 0 {
        let items = seq![msg];
        assert(items.drop_last() =~= Seq::<JsonValue>::empty());
        assert(agent_texts(items.drop_last()) == Seq::<Seq<char>>::empty());
        assert(items.last() == msg);
        assert(agent_texts(items) =~= seq![trim(text)]);
        assert(seq![trim(text)].len() == 1);
    }
}

} // verus!
