//! Following one turn on the app-server: each notification updates what is
//! known of the turn (the watched threads, the labels of agent threads, a
//! pending error) and yields the chat events to show, until the turn
//! completes or fails. The caller reads the socket and answers requests.
use vstd::prelude::*;

use crate::json::{at_path, member2, member3, member_of, str_at, str_member, str_of, u64_of, JsonValue};
use crate::runtime::{event_views, opt_text, string_views, ChatStreamEvent, ChatStreamEventView};
use crate::stream::{
    activity_completed_from_item, activity_started_from_item, collab_event,
    collab_tool_from_item, or_empty, prefix_title, prefixed, web_activity,
};
use crate::swarm::{key_pos, lemma_key_pos_found, lemma_key_pos_none, link_of, put_link};
use crate::text::{chars_of, decimal, extend_chars, push_decimal, string_from, text_eq};

verus! {

/// The label of an agent thread and the thread it belongs to.
#[derive(Debug)]
struct LabelEntry {
    key: String,
    label: String,
}

impl View for LabelEntry {
    type V = (Seq<char>, Seq<char>);

    closed spec fn view(&self) -> (Seq<char>, Seq<char>) {
        (self.key@, self.label@)
    }
}

spec fn label_views(s: Seq<LabelEntry>) -> Seq<(Seq<char>, Seq<char>)> {
    s.map_values(|e: LabelEntry| e@)
}

/// Labels by thread or item id, in the order they were first given.
#[derive(Debug)]
pub struct LabelMap {
    entries: Vec<LabelEntry>,
}

impl View for LabelMap {
    type V = Seq<(Seq<char>, Seq<char>)>;

    closed spec fn view(&self) -> Seq<(Seq<char>, Seq<char>)> {
        label_views(self.entries@)
    }
}

/// What is known while a turn runs.
#[derive(Debug)]
pub struct TurnWatch {
    thread_id: String,
    pending_error: Option<String>,
    watched: Vec<String>,
    thread_labels: LabelMap,
    next_agent_label: usize,
    pending_collab_labels: LabelMap,
    saw_assistant_delta: bool,
}

/// What is known while a turn runs, as plain values: the turn's thread,
/// the error reported for it, the threads whose events are shown, the label
/// of each agent thread, the number of the next "Agent" label, the labels
/// reserved for agents being spawned, and whether any answer text arrived.
pub struct TurnWatchView {
    pub thread_id: Seq<char>,
    pub pending_error: Option<Seq<char>>,
    pub watched: Seq<Seq<char>>,
    pub labels: Seq<(Seq<char>, Seq<char>)>,
    pub next_label: usize,
    pub pending_labels: Seq<(Seq<char>, Seq<char>)>,
    pub saw_assistant_delta: bool,
}

impl View for TurnWatch {
    type V = TurnWatchView;

    closed spec fn view(&self) -> TurnWatchView {
        TurnWatchView {
            thread_id: self.thread_id@,
            pending_error: opt_text(self.pending_error),
            watched: string_views(self.watched@),
            labels: self.thread_labels@,
            next_label: self.next_agent_label,
            pending_labels: self.pending_collab_labels@,
            saw_assistant_delta: self.saw_assistant_delta,
        }
    }
}

/// Whether the turn goes on, ended, or failed with a message.
#[derive(Debug, PartialEq, Eq)]
pub enum TurnProgress {
    Waiting,
    Finished,
    Failed(String),
}

/// How the turn stands, as plain values.
pub enum ProgressView {
    Waiting,
    Finished,
    Failed(Seq<char>),
}

impl View for TurnProgress {
    type V = ProgressView;

    open spec fn view(&self) -> ProgressView {
        match *self {
            TurnProgress::Waiting => ProgressView::Waiting,
            TurnProgress::Finished => ProgressView::Finished,
            TurnProgress::Failed(m) => ProgressView::Failed(m@),
        }
    }
}

/// The events that one notification yields and how the turn stands after it.
#[derive(Debug)]
pub struct TurnStep {
    pub events: Vec<ChatStreamEvent>,
    pub progress: TurnProgress,
}

/// The label "Agent n".
pub open spec fn fresh_label(n: usize) -> Seq<char> {
    "Agent "@ + decimal(n as nat)
}

/// The next label number, wrapping as the counter does.
pub open spec fn bump(n: usize) -> usize {
    if n == usize::MAX {
        0
    } else {
        (n + 1) as usize
    }
}

/// `ws` with `t` added unless it is there.
pub open spec fn watch(ws: Seq<Seq<char>>, t: Seq<char>) -> Seq<Seq<char>> {
    if ws.contains(t) {
        ws
    } else {
        ws.push(t)
    }
}

/// The label of `key`, made from the counter when it has none yet: the
/// labels and the counter after, and the label.
pub open spec fn label_entry(labels: Seq<(Seq<char>, Seq<char>)>, key: Seq<char>, n: usize) -> (
    Seq<(Seq<char>, Seq<char>)>,
    usize,
    Seq<char>,
) {
    match link_of(labels, key) {
        Some(l) => (labels, n, l),
        None => (put_link(labels, key, fresh_label(n)), bump(n), fresh_label(n)),
    }
}

/// The notification is about a watched thread.
pub open spec fn matches_thread(w: TurnWatchView, params: JsonValue) -> bool {
    match str_at(params, "threadId"@) {
        Some(t) => w.watched.contains(t),
        None => false,
    }
}

/// The label of the notification's thread; none for the turn's own thread
/// or when the notification names no thread.
pub open spec fn label_for_params(w: TurnWatchView, params: JsonValue) -> (TurnWatchView, Option<
    Seq<char>,
>) {
    match str_at(params, "threadId"@) {
        None => (w, None),
        Some(t) => if t == w.thread_id {
            (w, None)
        } else {
            let (labels, n, l) = label_entry(w.labels, t, w.next_label);
            (TurnWatchView { labels: labels, next_label: n, ..w }, Some(l))
        },
    }
}

/// A swarm tool event with the label of its first receiver, or the label
/// reserved for its item.
pub open spec fn enriched(
    e: ChatStreamEventView,
    labels: Seq<(Seq<char>, Seq<char>)>,
    pending: Seq<(Seq<char>, Seq<char>)>,
) -> ChatStreamEventView {
    match e {
        ChatStreamEventView::CollabTool {
            item_id,
            title,
            detail,
            agent_label: _,
            tool,
            sender_thread_id,
            receiver_thread_ids,
            model,
            reasoning_effort,
            agent_states,
            complete,
        } => {
            let first = if receiver_thread_ids.len() > 0 {
                link_of(labels, receiver_thread_ids[0])
            } else {
                None
            };
            ChatStreamEventView::CollabTool {
                item_id: item_id,
                title: title,
                detail: detail,
                agent_label: if first is Some {
                    first
                } else {
                    link_of(pending, item_id)
                },
                tool: tool,
                sender_thread_id: sender_thread_id,
                receiver_thread_ids: receiver_thread_ids,
                model: model,
                reasoning_effort: reasoning_effort,
                agent_states: agent_states,
                complete: complete,
            }
        },
        other => other,
    }
}

/// Each receiver watched and given a label unless it has one.
pub open spec fn receivers_watched(w: TurnWatchView, rs: Seq<Seq<char>>) -> TurnWatchView
    decreases rs.len(),
{
    if rs.len() == 0 {
        w
    } else {
        let v = receivers_watched(w, rs.drop_last());
        let r = rs.last();
        let (labels, n, _l) = label_entry(v.labels, r, v.next_label);
        TurnWatchView { watched: watch(v.watched, r), labels: labels, next_label: n, ..v }
    }
}

/// Each spawned receiver labelled `label`, watched, and announced.
pub open spec fn spawned_linked(w: TurnWatchView, rs: Seq<Seq<char>>, label: Seq<char>) -> (
    TurnWatchView,
    Seq<ChatStreamEventView>,
)
    decreases rs.len(),
{
    if rs.len() == 0 {
        (w, Seq::empty())
    } else {
        let (v, es) = spawned_linked(w, rs.drop_last(), label);
        let r = rs.last();
        (
            TurnWatchView { labels: put_link(v.labels, r, label), watched: watch(v.watched, r), ..v },
            es.push(ChatStreamEventView::AgentThread { thread_id: r, label: label }),
        )
    }
}

/// After "thread/started": the new thread is watched and labelled by its
/// nickname, its role, "Brain" for the turn's thread, or the next
/// "Agent n"; other threads than the turn's are announced.
pub open spec fn on_thread_started(w: TurnWatchView, params: JsonValue) -> (TurnWatchView, Seq<
    ChatStreamEventView,
>) {
    match member_of(params, "thread"@) {
        None => (w, Seq::empty()),
        Some(thread) => match str_at(thread, "id"@) {
            None => (w, Seq::empty()),
            Some(sid) => {
                let nick = str_at(thread, "agentNickname"@);
                let role = str_at(thread, "agentRole"@);
                let (label, n) = if nick is Some {
                    (nick->0, w.next_label)
                } else if role is Some {
                    (role->0, w.next_label)
                } else if sid == w.thread_id {
                    ("Brain"@, w.next_label)
                } else {
                    (fresh_label(w.next_label), bump(w.next_label))
                };
                let w2 = TurnWatchView {
                    watched: watch(w.watched, sid),
                    labels: put_link(w.labels, sid, label),
                    next_label: n,
                    ..w
                };
                if sid != w.thread_id {
                    (w2, seq![ChatStreamEventView::AgentThread { thread_id: sid, label: label }])
                } else {
                    (w2, Seq::empty())
                }
            },
        },
    }
}

/// After "error": an error of the turn's own thread is kept for later.
pub open spec fn on_error(w: TurnWatchView, params: JsonValue) -> TurnWatchView {
    if !matches_thread(w, params) || str_at(params, "threadId"@) != Some(w.thread_id) {
        w
    } else {
        let m = str_of(at_path(params, seq!["error"@, "message"@]));
        TurnWatchView { pending_error: if m is Some {
            m
        } else {
            w.pending_error
        }, ..w }
    }
}

/// After "turn/completed" for the turn's thread: failed with the turn's
/// error or the error kept before, finished otherwise.
pub open spec fn on_turn_completed(w: TurnWatchView, params: JsonValue) -> (TurnWatchView, ProgressView) {
    if str_at(params, "threadId"@) != Some(w.thread_id) {
        (w, ProgressView::Waiting)
    } else {
        match str_of(at_path(params, seq!["turn"@, "error"@, "message"@])) {
            Some(m) => (w, ProgressView::Failed(m)),
            None => match w.pending_error {
                Some(m) => (TurnWatchView { pending_error: None, ..w }, ProgressView::Failed(m)),
                None => (w, ProgressView::Finished),
            },
        }
    }
}

/// The text of `o`, or `d`.
pub open spec fn or_default(o: Option<Seq<char>>, d: Seq<char>) -> Seq<char> {
    match o {
        Some(s) => s,
        None => d,
    }
}

/// After a piece of answer text of a watched thread.
pub open spec fn on_agent_delta(w: TurnWatchView, params: JsonValue) -> (TurnWatchView, Seq<
    ChatStreamEventView,
>) {
    if !matches_thread(w, params) {
        (w, Seq::empty())
    } else {
        let (w2, label) = label_for_params(w, params);
        let item_id = or_default(str_at(params, "itemId"@), "assistant"@);
        let delta = or_empty(str_at(params, "delta"@));
        if delta.len() > 0 {
            (
                TurnWatchView { saw_assistant_delta: true, ..w2 },
                seq![
                    ChatStreamEventView::AssistantDelta { item_id: item_id, title: label, delta: delta },
                ],
            )
        } else {
            (w2, Seq::empty())
        }
    }
}

/// After a token usage update of the turn's thread.
pub open spec fn on_token_usage(w: TurnWatchView, params: JsonValue) -> Seq<ChatStreamEventView> {
    if str_at(params, "threadId"@) != Some(w.thread_id) {
        Seq::empty()
    } else {
        let a = u64_of(at_path(params, seq!["tokenUsage"@, "last"@, "totalTokens"@]));
        let b = u64_of(at_path(params, seq!["tokenUsage"@, "total"@, "totalTokens"@]));
        let c = u64_of(at_path(params, seq!["tokenUsage"@, "modelContextWindow"@]));
        if a is Some && b is Some && c is Some {
            seq![
                ChatStreamEventView::TokenUsage {
                    context_tokens: a->0,
                    session_total_tokens: b->0,
                    context_window: c->0,
                },
            ]
        } else {
            Seq::empty()
        }
    }
}

/// After a piece of reasoning of a watched thread.
pub open spec fn on_reasoning_delta(w: TurnWatchView, params: JsonValue) -> (TurnWatchView, Seq<
    ChatStreamEventView,
>) {
    if !matches_thread(w, params) {
        (w, Seq::empty())
    } else {
        let (w2, label) = label_for_params(w, params);
        let item_id = or_default(str_at(params, "itemId"@), "reasoning"@);
        let delta = or_empty(str_at(params, "delta"@));
        if delta.len() > 0 {
            (
                w2,
                seq![
                    ChatStreamEventView::ReasoningDelta { item_id: item_id, title: label, delta: delta },
                ],
            )
        } else {
            (w2, Seq::empty())
        }
    }
}

/// After output of a command of a watched thread.
pub open spec fn on_command_output(w: TurnWatchView, params: JsonValue) -> Seq<ChatStreamEventView> {
    if !matches_thread(w, params) {
        Seq::empty()
    } else {
        let item_id = or_default(str_at(params, "itemId"@), "command"@);
        let delta = or_empty(str_at(params, "delta"@));
        if delta.len() > 0 {
            seq![ChatStreamEventView::CommandDelta { item_id: item_id, delta: delta }]
        } else {
            Seq::empty()
        }
    }
}

/// The label reserved for a spawn, taken from the counter unless there is one.
pub open spec fn pending_entry(w: TurnWatchView, item_id: Seq<char>) -> TurnWatchView {
    let (pending, n, _l) = label_entry(w.pending_labels, item_id, w.next_label);
    TurnWatchView { pending_labels: pending, next_label: n, ..w }
}

/// After a swarm tool call item started.
pub open spec fn on_collab_started(w: TurnWatchView, ev: ChatStreamEventView) -> (TurnWatchView, Seq<
    ChatStreamEventView,
>) {
    match ev {
        ChatStreamEventView::CollabTool { item_id, tool, receiver_thread_ids, .. } => {
            let w3 = if tool == "spawnAgent"@ {
                pending_entry(w, item_id)
            } else {
                w
            };
            let w4 = receivers_watched(w3, receiver_thread_ids);
            (w4, seq![enriched(ev, w4.labels, w4.pending_labels)])
        },
        _ => (w, Seq::empty()),
    }
}

/// The events for an item that started, after its swarm tool event.
pub open spec fn started_item_events(item: JsonValue, label: Option<Seq<char>>) -> Seq<ChatStreamEventView> {
    let act = match web_activity(item, "Searching the web"@) {
        Some((id, title, detail)) => seq![
            ChatStreamEventView::Activity {
                item_id: id,
                title: prefixed(label, title),
                detail: detail,
                agent_label: label,
                complete: false,
            },
        ],
        None => Seq::empty(),
    };
    let t = str_at(item, "type"@);
    if t == Some("commandExecution"@) {
        act.push(
            ChatStreamEventView::CommandStarted {
                item_id: or_default(str_at(item, "id"@), "command"@),
                title: label,
                command: or_default(str_at(item, "command"@), "command"@),
            },
        )
    } else if t == Some("agentMessage"@) {
        act.push(ChatStreamEventView::Status { message: "Writing response..."@ })
    } else {
        act
    }
}

/// After an item of a watched thread started.
pub open spec fn on_item_started(w: TurnWatchView, params: JsonValue) -> (TurnWatchView, Seq<
    ChatStreamEventView,
>) {
    if !matches_thread(w, params) {
        (w, Seq::empty())
    } else {
        let (w2, label) = label_for_params(w, params);
        match member_of(params, "item"@) {
            None => (w2, Seq::empty()),
            Some(item) => {
                let (w3, es) = match collab_event(item, false) {
                    Some(ev) => on_collab_started(w2, ev),
                    None => (w2, Seq::empty()),
                };
                (w3, es + started_item_events(item, label))
            },
        }
    }
}

/// After a swarm tool call item finished.
pub open spec fn on_collab_completed(w: TurnWatchView, ev: ChatStreamEventView) -> (TurnWatchView, Seq<
    ChatStreamEventView,
>) {
    match ev {
        ChatStreamEventView::CollabTool { item_id, tool, receiver_thread_ids, .. } => {
            let (w3, es) = if tool == "spawnAgent"@ {
                let (label, v) = match link_of(w.pending_labels, item_id) {
                    Some(l) => (l, w),
                    None => (
                        fresh_label(w.next_label),
                        TurnWatchView { next_label: bump(w.next_label), ..w },
                    ),
                };
                spawned_linked(v, receiver_thread_ids, label)
            } else {
                (w, Seq::empty())
            };
            let w4 = receivers_watched(w3, receiver_thread_ids);
            (w4, es.push(enriched(ev, w4.labels, w4.pending_labels)))
        },
        _ => (w, Seq::empty()),
    }
}

/// The events for a finished command: its start when the command is named,
/// and its output when there is some.
pub open spec fn command_done_events(item: JsonValue, label: Option<Seq<char>>) -> Seq<ChatStreamEventView> {
    match str_at(item, "id"@) {
        None => Seq::empty(),
        Some(id) => {
            let a = match str_at(item, "command"@) {
                Some(c) => seq![
                    ChatStreamEventView::CommandStarted { item_id: id, title: label, command: c },
                ],
                None => Seq::empty(),
            };
            match str_at(item, "aggregatedOutput"@) {
                Some(o) => if o.len() > 0 {
                    a.push(ChatStreamEventView::CommandDelta { item_id: id, delta: o })
                } else {
                    a
                },
                None => a,
            }
        },
    }
}

/// The events for an item that finished, after its swarm tool events.
pub open spec fn completed_item_events(item: JsonValue, item_type: Seq<char>, label: Option<Seq<char>>) -> Seq<
    ChatStreamEventView,
> {
    let act = match web_activity(item, "Searched the web"@) {
        Some((id, title, detail)) => seq![
            ChatStreamEventView::Activity {
                item_id: id,
                title: prefixed(label, title),
                detail: detail,
                agent_label: label,
                complete: true,
            },
        ],
        None => Seq::empty(),
    };
    if item_type != "agentMessage"@ && item_type != "reasoning"@ && item_type
        != "commandExecution"@ {
        act
    } else {
        let b = if item_type == "commandExecution"@ {
            act + command_done_events(item, label)
        } else {
            act
        };
        match str_at(item, "id"@) {
            Some(id) => b.push(ChatStreamEventView::ItemDone { item_id: id }),
            None => b,
        }
    }
}

/// After an item of a watched thread finished.
pub open spec fn on_item_completed(w: TurnWatchView, params: JsonValue) -> (TurnWatchView, Seq<
    ChatStreamEventView,
>) {
    if !matches_thread(w, params) {
        (w, Seq::empty())
    } else {
        let (w2, label) = label_for_params(w, params);
        match member_of(params, "item"@) {
            None => (w2, Seq::empty()),
            Some(item) => match str_at(item, "type"@) {
                None => (w2, Seq::empty()),
                Some(item_type) => {
                    let (w3, es) = match collab_event(item, true) {
                        Some(ev) => on_collab_completed(w2, ev),
                        None => (w2, Seq::empty()),
                    };
                    (w3, es + completed_item_events(item, item_type, label))
                },
            },
        }
    }
}

/// What one notification does: the state after it, the events it yields,
/// and how the turn stands.
pub open spec fn turn_step(w: TurnWatchView, method: Seq<char>, params: JsonValue) -> (
    TurnWatchView,
    Seq<ChatStreamEventView>,
    ProgressView,
) {
    if method == "thread/started"@ {
        let (v, es) = on_thread_started(w, params);
        (v, es, ProgressView::Waiting)
    } else if method == "error"@ {
        (on_error(w, params), Seq::empty(), ProgressView::Waiting)
    } else if method == "turn/completed"@ {
        let (v, pr) = on_turn_completed(w, params);
        (v, Seq::empty(), pr)
    } else if method == "item/agentMessage/delta"@ {
        let (v, es) = on_agent_delta(w, params);
        (v, es, ProgressView::Waiting)
    } else if method == "thread/tokenUsage/updated"@ {
        (w, on_token_usage(w, params), ProgressView::Waiting)
    } else if method == "item/reasoning/summaryTextDelta"@ || method == "item/reasoning/textDelta"@ {
        let (v, es) = on_reasoning_delta(w, params);
        (v, es, ProgressView::Waiting)
    } else if method == "item/commandExecution/outputDelta"@ {
        (w, on_command_output(w, params), ProgressView::Waiting)
    } else if method == "item/started"@ {
        let (v, es) = on_item_started(w, params);
        (v, es, ProgressView::Waiting)
    } else if method == "item/completed"@ {
        let (v, es) = on_item_completed(w, params);
        (v, es, ProgressView::Waiting)
    } else {
        (w, Seq::empty(), ProgressView::Waiting)
    }
}

/// Whether `v` still belongs to the turn of `w` and watches every thread
/// that `w` watches.
pub open spec fn watch_kept(w: TurnWatchView, v: TurnWatchView) -> bool {
    &&& v.thread_id == w.thread_id
    &&& forall|t: Seq<char>| w.watched.contains(t) ==> #[trigger] v.watched.contains(t)
}

proof fn lemma_watch_keeps(ws: Seq<Seq<char>>, r: Seq<char>)
    ensures
        forall|t: Seq<char>| ws.contains(t) ==> #[trigger] watch(ws, r).contains(t),
{
    assert forall|t: Seq<char>| ws.contains(t) implies #[trigger] watch(ws, r).contains(t) by {
        if !ws.contains(r) {
            let i = choose|i: int| 0 <= i < ws.len() && ws[i] == t;
            assert(ws.push(r)[i] == t);
        }
    }
}

proof fn lemma_receivers_keep(w: TurnWatchView, rs: Seq<Seq<char>>)
    ensures
        watch_kept(w, receivers_watched(w, rs)),
    decreases rs.len(),
{
    if rs.len() > 0 {
        lemma_receivers_keep(w, rs.drop_last());
        let v = receivers_watched(w, rs.drop_last());
        lemma_watch_keeps(v.watched, rs.last());
    }
}

proof fn lemma_spawned_keep(w: TurnWatchView, rs: Seq<Seq<char>>, label: Seq<char>)
    ensures
        watch_kept(w, spawned_linked(w, rs, label).0),
    decreases rs.len(),
{
    if rs.len() > 0 {
        lemma_spawned_keep(w, rs.drop_last(), label);
        let v = spawned_linked(w, rs.drop_last(), label).0;
        lemma_watch_keeps(v.watched, rs.last());
    }
}

proof fn lemma_collab_started_keeps(w: TurnWatchView, ev: ChatStreamEventView)
    ensures
        watch_kept(w, on_collab_started(w, ev).0),
{
    match ev {
        ChatStreamEventView::CollabTool { item_id, tool, receiver_thread_ids, .. } => {
            let w3 = if tool == "spawnAgent"@ {
                pending_entry(w, item_id)
            } else {
                w
            };
            lemma_receivers_keep(w3, receiver_thread_ids);
        },
        _ => {},
    }
}

proof fn lemma_collab_completed_keeps(w: TurnWatchView, ev: ChatStreamEventView)
    ensures
        watch_kept(w, on_collab_completed(w, ev).0),
{
    match ev {
        ChatStreamEventView::CollabTool { item_id, tool, receiver_thread_ids, .. } => {
            if tool == "spawnAgent"@ {
                let (label, v) = match link_of(w.pending_labels, item_id) {
                    Some(l) => (l, w),
                    None => (
                        fresh_label(w.next_label),
                        TurnWatchView { next_label: bump(w.next_label), ..w },
                    ),
                };
                lemma_spawned_keep(v, receiver_thread_ids, label);
                let w3 = spawned_linked(v, receiver_thread_ids, label).0;
                lemma_receivers_keep(w3, receiver_thread_ids);
            } else {
                lemma_receivers_keep(w, receiver_thread_ids);
            }
        },
        _ => {},
    }
}

/// No notification takes a watch off its turn or stops it watching a
/// thread it watched: in particular the turn's own thread, watched from
/// the start, stays watched.
pub proof fn law_watch_only_grows(w: TurnWatchView, method: Seq<char>, params: JsonValue)
    ensures
        watch_kept(w, turn_step(w, method, params).0),
{
    if method == "thread/started"@ {
        match member_of(params, "thread"@) {
            Some(thread) => match str_at(thread, "id"@) {
                Some(sid) => lemma_watch_keeps(w.watched, sid),
                None => {},
            },
            None => {},
        }
    } else if method == "item/started"@ {
        if matches_thread(w, params) {
            let w2 = label_for_params(w, params).0;
            match member_of(params, "item"@) {
                Some(item) => match collab_event(item, false) {
                    Some(ev) => lemma_collab_started_keeps(w2, ev),
                    None => {},
                },
                None => {},
            }
        }
    } else if method == "item/completed"@ {
        if matches_thread(w, params) {
            let w2 = label_for_params(w, params).0;
            match member_of(params, "item"@) {
                Some(item) => match str_at(item, "type"@) {
                    Some(_) => match collab_event(item, true) {
                        Some(ev) => lemma_collab_completed_keeps(w2, ev),
                        None => {},
                    },
                    None => {},
                },
                None => {},
            }
        }
    }
}

proof fn lemma_completion_method()
    ensures
        "turn/completed"@ != "thread/started"@,
        "turn/completed"@ != "error"@,
        "error"@ != "thread/started"@,
{
    reveal_strlit("turn/completed");
    reveal_strlit("thread/started");
    reveal_strlit("error");
    assert("turn/completed"@[1] != "thread/started"@[1]);
    assert("turn/completed"@.len() != "error"@.len());
    assert("error"@.len() != "thread/started"@.len());
}

/// A completion of the turn's own thread ends the wait, finished or
/// failed; a completion of any other thread changes nothing.
pub proof fn law_own_completion_ends_turn(w: TurnWatchView, params: JsonValue)
    ensures
        str_at(params, "threadId"@) == Some(w.thread_id) ==> !(turn_step(
            w,
            "turn/completed"@,
            params,
        ).2 is Waiting),
        str_at(params, "threadId"@) != Some(w.thread_id) ==> turn_step(w, "turn/completed"@, params)
            == (w, Seq::<ChatStreamEventView>::empty(), ProgressView::Waiting),
{
    lemma_completion_method();
}

/// An error reported for the turn's own thread fails the turn when it
/// completes without an error of its own, with the reported message.
pub proof fn law_reported_error_fails_turn(
    w: TurnWatchView,
    error: JsonValue,
    completion: JsonValue,
    message: Seq<char>,
)
    requires
        w.watched.contains(w.thread_id),
        str_at(error, "threadId"@) == Some(w.thread_id),
        str_of(at_path(error, seq!["error"@, "message"@])) == Some(message),
        str_at(completion, "threadId"@) == Some(w.thread_id),
        str_of(at_path(completion, seq!["turn"@, "error"@, "message"@])) is None,
    ensures
        turn_step(turn_step(w, "error"@, error).0, "turn/completed"@, completion).2
            == ProgressView::Failed(message),
{
    lemma_completion_method();
}

/// The state when the turn of `thread_id` starts: only its thread is
/// watched, labelled "Brain", and the first agent label is "Agent 1".
pub open spec fn initial_watch(thread_id: Seq<char>) -> TurnWatchView {
    TurnWatchView {
        thread_id: thread_id,
        pending_error: None,
        watched: seq![thread_id],
        labels: seq![(thread_id, "Brain"@)],
        next_label: 1,
        pending_labels: Seq::empty(),
        saw_assistant_delta: false,
    }
}

/// The next label number, wrapping as the counter does.
fn bump_exec(n: usize) -> (r: usize)
    ensures
        r == bump(n),
{
    if n == usize::MAX {
        0
    } else {
        n + 1
    }
}

/// The label "Agent n".
fn fresh_label_exec(n: usize) -> (r: String)
    ensures
        r@ == fresh_label(n),
{
    let mut v = chars_of("Agent ");
    push_decimal(&mut v, n as u64);
    string_from(&v)
}

impl LabelMap {
    /// No labels.
    pub fn new() -> (m: LabelMap)
        ensures
            m@ == Seq::<(Seq<char>, Seq<char>)>::empty(),
    {
        let m = LabelMap { entries: Vec::new() };
        proof {
            assert(m@ =~= Seq::<(Seq<char>, Seq<char>)>::empty());
        }
        m
    }

    fn find(&self, key: &str) -> (r: Option<usize>)
        ensures
            match r {
                Some(i) => i < self.entries.len() && key_pos(self@, key@) == i,
                None => key_pos(self@, key@) == -1,
            },
    {
        let ghost v = self@;
        let mut i: usize = 0;
        while i < self.entries.len()
            invariant
                i <= self.entries.len(),
                v == self@,
                forall|j: int| 0 <= j < i ==> v[j].0 != key@,
            decreases self.entries.len() - i,
        {
            if text_eq(self.entries[i].key.as_str(), key) {
                proof {
                    lemma_key_pos_found(v, key@, i as int);
                }
                return Some(i);
            }
            i = i + 1;
        }
        proof {
            lemma_key_pos_none(v, key@);
        }
        None
    }

    /// The label of `key`.
    pub fn get(&self, key: &str) -> (r: Option<String>)
        ensures
            opt_text(r) == link_of(self@, key@),
    {
        match self.find(key) {
            Some(i) => Some(self.entries[i].label.clone()),
            None => None,
        }
    }

    /// Labels `key` with `label`.
    pub fn insert(&mut self, key: String, label: String)
        ensures
            final(self)@ == put_link(old(self)@, key@, label@),
    {
        let k = key.clone();
        match self.find(k.as_str()) {
            Some(i) => {
                self.entries.set(i, LabelEntry { key, label });
            },
            None => {
                self.entries.push(LabelEntry { key, label });
            },
        }
        proof {
            assert(self@ =~= put_link(old(self)@, k@, label@));
        }
    }

    /// The label of `key`, given the next "Agent n" label from `counter`
    /// when it has none yet.
    pub fn entry_or_fresh(&mut self, key: &str, counter: &mut usize) -> (label: String)
        ensures
            (final(self)@, *final(counter), label@) == label_entry(old(self)@, key@, *old(counter)),
    {
        match self.get(key) {
            Some(l) => l,
            None => {
                let l = fresh_label_exec(*counter);
                self.insert(key.to_owned(), l.clone());
                *counter = bump_exec(*counter);
                l
            },
        }
    }
}

/// A swarm tool event with the label of its first receiver, or the label
/// reserved for its item; other events unchanged.
pub fn enrich_collab_tool_event(
    event: ChatStreamEvent,
    thread_labels: &LabelMap,
    pending_collab_labels: &LabelMap,
) -> (r: ChatStreamEvent)
    ensures
        r@ == enriched(event@, thread_labels@, pending_collab_labels@),
{
    match event {
        ChatStreamEvent::CollabTool {
            item_id,
            title,
            detail,
            agent_label: _,
            tool,
            sender_thread_id,
            receiver_thread_ids,
            model,
            reasoning_effort,
            agent_states,
            complete,
        } => {
            let first = if receiver_thread_ids.len() > 0 {
                thread_labels.get(receiver_thread_ids[0].as_str())
            } else {
                None
            };
            let agent_label = match first {
                Some(l) => Some(l),
                None => pending_collab_labels.get(item_id.as_str()),
            };
            ChatStreamEvent::CollabTool {
                item_id,
                title,
                detail,
                agent_label,
                tool,
                sender_thread_id,
                receiver_thread_ids,
                model,
                reasoning_effort,
                agent_states,
                complete,
            }
        },
        other => other,
    }
}

fn watched_contains(ws: &Vec<String>, t: &str) -> (b: bool)
    ensures
        b == string_views(ws@).contains(t@),
{
    let mut i: usize = 0;
    while i < ws.len()
        invariant
            i <= ws.len(),
            forall|j: int| 0 <= j < i ==> ws@[j]@ != t@,
        decreases ws.len() - i,
    {
        if text_eq(ws[i].as_str(), t) {
            proof {
                assert(string_views(ws@)[i as int] == t@);
            }
            return true;
        }
        i = i + 1;
    }
    proof {
        if string_views(ws@).contains(t@) {
            let j = choose|j: int| 0 <= j < ws@.len() && string_views(ws@)[j] == t@;
            assert(ws@[j]@ == t@);
        }
    }
    false
}

fn watch_exec(ws: &mut Vec<String>, t: &str)
    ensures
        string_views(final(ws)@) == watch(string_views(old(ws)@), t@),
{
    if !watched_contains(ws, t) {
        ws.push(t.to_owned());
        proof {
            assert(string_views(ws@) =~= string_views(old(ws)@).push(t@));
        }
    }
}

fn push_event(es: &mut Vec<ChatStreamEvent>, e: ChatStreamEvent)
    ensures
        event_views(final(es)@) == event_views(old(es)@).push(e@),
{
    es.push(e);
    proof {
        assert(event_views(es@) =~= event_views(old(es)@).push(e@));
    }
}

fn or_default_exec(o: Option<&str>, d: &str) -> (r: String)
    ensures
        r@ == or_default(
            match o {
                Some(s) => Some(s@),
                None => None,
            },
            d@,
        ),
{
    match o {
        Some(s) => s.to_owned(),
        None => d.to_owned(),
    }
}

impl TurnWatch {
    /// The state when the turn of `thread_id` starts.
    pub fn new(thread_id: &str) -> (w: TurnWatch)
        ensures
            w@ == initial_watch(thread_id@),
    {
        let mut watched: Vec<String> = Vec::new();
        watched.push(thread_id.to_owned());
        let mut labels = LabelMap::new();
        labels.insert(thread_id.to_owned(), "Brain".to_owned());
        let w = TurnWatch {
            thread_id: thread_id.to_owned(),
            pending_error: None,
            watched,
            thread_labels: labels,
            next_agent_label: 1,
            pending_collab_labels: LabelMap::new(),
            saw_assistant_delta: false,
        };
        proof {
            assert(string_views(w.watched@) =~= seq![thread_id@]);
            assert(put_link(Seq::<(Seq<char>, Seq<char>)>::empty(), thread_id@, "Brain"@) =~= seq![
                (thread_id@, "Brain"@),
            ]) by {
                lemma_key_pos_none(Seq::<(Seq<char>, Seq<char>)>::empty(), thread_id@);
            }
        }
        w
    }

    /// Whether any answer text arrived.
    pub fn saw_assistant_delta(&self) -> (b: bool)
        ensures
            b == self@.saw_assistant_delta,
    {
        self.saw_assistant_delta
    }

    /// Whether the notification is about a watched thread.
    pub fn thread_matches(&self, params: &JsonValue) -> (b: bool)
        ensures
            b == matches_thread(self@, *params),
    {
        match str_member(params, "threadId") {
            Some(t) => watched_contains(&self.watched, t),
            None => false,
        }
    }

    /// The label of the notification's thread, given one when it has none.
    pub fn thread_label_for_params(&mut self, params: &JsonValue) -> (label: Option<String>)
        ensures
            (final(self)@, opt_text(label)) == label_for_params(old(self)@, *params),
    {
        match str_member(params, "threadId") {
            None => None,
            Some(t) => {
                if text_eq(t, self.thread_id.as_str()) {
                    None
                } else {
                    let l = self.thread_labels.entry_or_fresh(t, &mut self.next_agent_label);
                    proof {
                        assert(self@ =~= label_for_params(old(self)@, *params).0);
                    }
                    Some(l)
                }
            },
        }
    }

    fn thread_started(&mut self, params: &JsonValue, events: &mut Vec<ChatStreamEvent>)
        ensures
            (final(self)@, event_views(final(events)@)) == ({
                let (v, es) = on_thread_started(old(self)@, *params);
                (v, event_views(old(events)@) + es)
            }),
    {
        let thread = match params.get("thread") {
            Some(t) => t,
            None => {
                proof {
                    assert(event_views(old(events)@) + Seq::empty() =~= event_views(old(events)@));
                }
                return ;
            },
        };
        let sid = match str_member(thread, "id") {
            Some(x) => x,
            None => {
                proof {
                    assert(event_views(old(events)@) + Seq::empty() =~= event_views(old(events)@));
                }
                return ;
            },
        };
        let label = match str_member(thread, "agentNickname") {
            Some(n) => n.to_owned(),
            None => match str_member(thread, "agentRole") {
                Some(r) => r.to_owned(),
                None => {
                    if text_eq(sid, self.thread_id.as_str()) {
                        "Brain".to_owned()
                    } else {
                        let l = fresh_label_exec(self.next_agent_label);
                        self.next_agent_label = bump_exec(self.next_agent_label);
                        l
                    }
                },
            },
        };
        watch_exec(&mut self.watched, sid);
        self.thread_labels.insert(sid.to_owned(), label.clone());
        if !text_eq(sid, self.thread_id.as_str()) {
            push_event(events, ChatStreamEvent::AgentThread { thread_id: sid.to_owned(), label });
        } else {
            proof {
                assert(event_views(old(events)@) + Seq::empty() =~= event_views(old(events)@));
            }
        }
        proof {
            let (v, es) = on_thread_started(old(self)@, *params);
            assert(self@ =~= v);
            assert(event_views(events@) =~= event_views(old(events)@) + es);
        }
    }

    fn error_notice(&mut self, params: &JsonValue)
        ensures
            final(self)@ == on_error(old(self)@, *params),
    {
        if !self.thread_matches(params) {
            return ;
        }
        let own = match str_member(params, "threadId") {
            Some(t) => text_eq(t, self.thread_id.as_str()),
            None => false,
        };
        if own {
            match member2(params, "error", "message") {
                Some(m) => match m.as_str() {
                    Some(text) => {
                        self.pending_error = Some(text.to_owned());
                    },
                    None => {},
                },
                None => {},
            }
            proof {
                assert(self@ =~= on_error(old(self)@, *params));
            }
        }
    }

    fn turn_completed(&mut self, params: &JsonValue) -> (p: TurnProgress)
        ensures
            (final(self)@, p@) == on_turn_completed(old(self)@, *params),
    {
        let own = match str_member(params, "threadId") {
            Some(t) => text_eq(t, self.thread_id.as_str()),
            None => false,
        };
        if !own {
            return TurnProgress::Waiting;
        }
        match member3(params, "turn", "error", "message") {
            Some(m) => match m.as_str() {
                Some(text) => {
                    return TurnProgress::Failed(text.to_owned());
                },
                None => {},
            },
            None => {},
        }
        match self.pending_error.take() {
            Some(m) => {
                proof {
                    assert(self@ =~= on_turn_completed(old(self)@, *params).0);
                }
                TurnProgress::Failed(m)
            },
            None => TurnProgress::Finished,
        }
    }

    fn agent_delta(&mut self, params: &JsonValue, events: &mut Vec<ChatStreamEvent>)
        ensures
            (final(self)@, event_views(final(events)@)) == ({
                let (v, es) = on_agent_delta(old(self)@, *params);
                (v, event_views(old(events)@) + es)
            }),
    {
        proof {
            assert(event_views(old(events)@) + Seq::empty() =~= event_views(old(events)@));
        }
        if !self.thread_matches(params) {
            return ;
        }
        let label = self.thread_label_for_params(params);
        let item_id = or_default_exec(str_member(params, "itemId"), "assistant");
        let delta = or_default_exec(str_member(params, "delta"), "");
        proof {
            reveal_strlit("");
        }
        if !delta.as_str().is_empty() {
            self.saw_assistant_delta = true;
            push_event(events, ChatStreamEvent::AssistantDelta { item_id, title: label, delta });
        }
        proof {
            let (v, es) = on_agent_delta(old(self)@, *params);
            assert(self@ =~= v);
            assert(event_views(events@) =~= event_views(old(events)@) + es);
        }
    }

    fn token_usage(&self, params: &JsonValue, events: &mut Vec<ChatStreamEvent>)
        ensures
            event_views(final(events)@) == event_views(old(events)@) + on_token_usage(
                self@,
                *params,
            ),
    {
        proof {
            assert(event_views(old(events)@) + Seq::empty() =~= event_views(old(events)@));
        }
        let own = match str_member(params, "threadId") {
            Some(t) => text_eq(t, self.thread_id.as_str()),
            None => false,
        };
        if !own {
            return ;
        }
        let a = match member3(params, "tokenUsage", "last", "totalTokens") {
            Some(x) => x.as_u64(),
            None => None,
        };
        let b = match member3(params, "tokenUsage", "total", "totalTokens") {
            Some(x) => x.as_u64(),
            None => None,
        };
        let c = match member2(params, "tokenUsage", "modelContextWindow") {
            Some(x) => x.as_u64(),
            None => None,
        };
        match (a, b, c) {
            (Some(a), Some(b), Some(c)) => {
                push_event(
                    events,
                    ChatStreamEvent::TokenUsage {
                        context_tokens: a,
                        session_total_tokens: b,
                        context_window: c,
                    },
                );
                proof {
                    assert(event_views(events@) =~= event_views(old(events)@) + on_token_usage(
                        self@,
                        *params,
                    ));
                }
            },
            _ => {},
        }
    }

    fn reasoning_delta(&mut self, params: &JsonValue, events: &mut Vec<ChatStreamEvent>)
        ensures
            (final(self)@, event_views(final(events)@)) == ({
                let (v, es) = on_reasoning_delta(old(self)@, *params);
                (v, event_views(old(events)@) + es)
            }),
    {
        proof {
            assert(event_views(old(events)@) + Seq::empty() =~= event_views(old(events)@));
        }
        if !self.thread_matches(params) {
            return ;
        }
        let label = self.thread_label_for_params(params);
        let item_id = or_default_exec(str_member(params, "itemId"), "reasoning");
        let delta = or_default_exec(str_member(params, "delta"), "");
        proof {
            reveal_strlit("");
        }
        if !delta.as_str().is_empty() {
            push_event(events, ChatStreamEvent::ReasoningDelta { item_id, title: label, delta });
        }
        proof {
            let (v, es) = on_reasoning_delta(old(self)@, *params);
            assert(event_views(events@) =~= event_views(old(events)@) + es);
        }
    }

    fn command_output(&self, params: &JsonValue, events: &mut Vec<ChatStreamEvent>)
        ensures
            event_views(final(events)@) == event_views(old(events)@) + on_command_output(
                self@,
                *params,
            ),
    {
        proof {
            assert(event_views(old(events)@) + Seq::empty() =~= event_views(old(events)@));
        }
        if !self.thread_matches(params) {
            return ;
        }
        let item_id = or_default_exec(str_member(params, "itemId"), "command");
        let delta = or_default_exec(str_member(params, "delta"), "");
        proof {
            reveal_strlit("");
        }
        if !delta.as_str().is_empty() {
            push_event(events, ChatStreamEvent::CommandDelta { item_id, delta });
            proof {
                assert(event_views(events@) =~= event_views(old(events)@) + on_command_output(
                    self@,
                    *params,
                ));
            }
        }
    }
}

impl TurnWatch {
    /// Each receiver watched and given a label unless it has one.
    fn watch_receivers(&mut self, receivers: &Vec<String>)
        ensures
            final(self)@ == receivers_watched(old(self)@, string_views(receivers@)),
    {
        let ghost rs = string_views(receivers@);
        for k in 0..receivers.len()
            invariant
                rs == string_views(receivers@),
                self@ == receivers_watched(old(self)@, rs.take(k as int)),
        {
            proof {
                assert(rs.take(k + 1).drop_last() == rs.take(k as int));
                assert(rs.take(k + 1).last() == receivers@[k as int]@);
            }
            let r = receivers[k].as_str();
            watch_exec(&mut self.watched, r);
            self.thread_labels.entry_or_fresh(r, &mut self.next_agent_label);
            proof {
                assert(self@ =~= receivers_watched(old(self)@, rs.take(k + 1)));
            }
        }
        proof {
            assert(rs.take(receivers.len() as int) == rs);
        }
    }

    /// Each spawned receiver labelled, watched and announced.
    fn link_spawned(
        &mut self,
        receivers: &Vec<String>,
        label: &String,
        events: &mut Vec<ChatStreamEvent>,
    )
        ensures
            (final(self)@, event_views(final(events)@)) == ({
                let (v, es) = spawned_linked(old(self)@, string_views(receivers@), label@);
                (v, event_views(old(events)@) + es)
            }),
    {
        let ghost rs = string_views(receivers@);
        proof {
            assert(event_views(old(events)@) + Seq::empty() =~= event_views(old(events)@));
        }
        for k in 0..receivers.len()
            invariant
                rs == string_views(receivers@),
                (self@, event_views(events@)) == ({
                    let (v, es) = spawned_linked(old(self)@, rs.take(k as int), label@);
                    (v, event_views(old(events)@) + es)
                }),
        {
            proof {
                assert(rs.take(k + 1).drop_last() == rs.take(k as int));
                assert(rs.take(k + 1).last() == receivers@[k as int]@);
            }
            let r = receivers[k].as_str();
            self.thread_labels.insert(r.to_owned(), label.clone());
            watch_exec(&mut self.watched, r);
            push_event(events, ChatStreamEvent::AgentThread { thread_id: r.to_owned(), label: label.clone() });
            proof {
                let (v, es) = spawned_linked(old(self)@, rs.take(k + 1), label@);
                assert(self@ =~= v);
                assert(event_views(events@) =~= event_views(old(events)@) + es);
            }
        }
        proof {
            assert(rs.take(receivers.len() as int) == rs);
        }
    }

    fn collab_started(&mut self, ev: ChatStreamEvent, events: &mut Vec<ChatStreamEvent>)
        ensures
            (final(self)@, event_views(final(events)@)) == ({
                let (v, es) = on_collab_started(old(self)@, ev@);
                (v, event_views(old(events)@) + es)
            }),
    {
        match &ev {
            ChatStreamEvent::CollabTool { item_id, tool, receiver_thread_ids, .. } => {
                if text_eq(tool.as_str(), "spawnAgent") {
                    self.pending_collab_labels.entry_or_fresh(
                        item_id.as_str(),
                        &mut self.next_agent_label,
                    );
                    proof {
                        assert(self@ =~= pending_entry(old(self)@, item_id@));
                    }
                }
                self.watch_receivers(receiver_thread_ids);
            },
            _ => {
                proof {
                    assert(event_views(old(events)@) + Seq::empty() =~= event_views(old(events)@));
                }
                return ;
            },
        }
        let e = enrich_collab_tool_event(ev, &self.thread_labels, &self.pending_collab_labels);
        push_event(events, e);
        proof {
            let (v, es) = on_collab_started(old(self)@, ev@);
            assert(event_views(events@) =~= event_views(old(events)@) + es);
        }
    }

    fn collab_completed(&mut self, ev: ChatStreamEvent, events: &mut Vec<ChatStreamEvent>)
        ensures
            (final(self)@, event_views(final(events)@)) == ({
                let (v, es) = on_collab_completed(old(self)@, ev@);
                (v, event_views(old(events)@) + es)
            }),
    {
        match &ev {
            ChatStreamEvent::CollabTool { item_id, tool, receiver_thread_ids, .. } => {
                if text_eq(tool.as_str(), "spawnAgent") {
                    let label = match self.pending_collab_labels.get(item_id.as_str()) {
                        Some(l) => l,
                        None => {
                            let l = fresh_label_exec(self.next_agent_label);
                            self.next_agent_label = bump_exec(self.next_agent_label);
                            l
                        },
                    };
                    self.link_spawned(receiver_thread_ids, &label, events);
                } else {
                    proof {
                        assert(event_views(old(events)@) + Seq::empty() =~= event_views(
                            old(events)@,
                        ));
                    }
                }
                self.watch_receivers(receiver_thread_ids);
            },
            _ => {
                proof {
                    assert(event_views(old(events)@) + Seq::empty() =~= event_views(old(events)@));
                }
                return ;
            },
        }
        let ghost mid = event_views(events@);
        let e = enrich_collab_tool_event(ev, &self.thread_labels, &self.pending_collab_labels);
        push_event(events, e);
        proof {
            let (v, es) = on_collab_completed(old(self)@, ev@);
            assert(self@ == v);
            assert(event_views(events@) =~= event_views(old(events)@) + es);
        }
    }

    fn item_started(&mut self, params: &JsonValue, events: &mut Vec<ChatStreamEvent>)
        ensures
            (final(self)@, event_views(final(events)@)) == ({
                let (v, es) = on_item_started(old(self)@, *params);
                (v, event_views(old(events)@) + es)
            }),
    {
        proof {
            assert(event_views(old(events)@) + Seq::empty() =~= event_views(old(events)@));
        }
        if !self.thread_matches(params) {
            return ;
        }
        let label = self.thread_label_for_params(params);
        let item = match params.get("item") {
            Some(i) => i,
            None => {
                return ;
            },
        };
        let ghost w2 = self@;
        let ghost e0 = event_views(events@);
        match collab_tool_from_item(item, false) {
            Some(ev) => {
                self.collab_started(ev, events);
            },
            None => {},
        }
        let ghost e1 = event_views(events@);
        match activity_started_from_item(item) {
            Some((item_id, title, detail)) => {
                let t = prefix_title(crate::runtime::copy_opt(&label), title);
                push_event(
                    events,
                    ChatStreamEvent::Activity {
                        item_id,
                        title: t,
                        detail,
                        agent_label: crate::runtime::copy_opt(&label),
                        complete: false,
                    },
                );
            },
            None => {},
        }
        let t = str_member(item, "type");
        let is_command = match t {
            Some(x) => text_eq(x, "commandExecution"),
            None => false,
        };
        let is_message = match t {
            Some(x) => text_eq(x, "agentMessage"),
            None => false,
        };
        if is_command {
            let item_id = or_default_exec(str_member(item, "id"), "command");
            let command = or_default_exec(str_member(item, "command"), "command");
            push_event(events, ChatStreamEvent::CommandStarted { item_id, title: label, command });
        } else if is_message {
            push_event(events, ChatStreamEvent::Status { message: "Writing response...".to_owned() });
        }
        proof {
            let (v, es) = on_item_started(old(self)@, *params);
            assert(self@ == v);
            assert(event_views(events@) =~= event_views(old(events)@) + es);
        }
    }

    fn command_done(&self, item: &JsonValue, label: &Option<String>, events: &mut Vec<ChatStreamEvent>)
        ensures
            event_views(final(events)@) == event_views(old(events)@) + command_done_events(
                *item,
                opt_text(*label),
            ),
    {
        proof {
            assert(event_views(old(events)@) + Seq::empty() =~= event_views(old(events)@));
        }
        let id = match str_member(item, "id") {
            Some(i) => i,
            None => {
                return ;
            },
        };
        match str_member(item, "command") {
            Some(c) => {
                push_event(
                    events,
                    ChatStreamEvent::CommandStarted {
                        item_id: id.to_owned(),
                        title: crate::runtime::copy_opt(label),
                        command: c.to_owned(),
                    },
                );
            },
            None => {},
        }
        match str_member(item, "aggregatedOutput") {
            Some(o) => {
                if !o.is_empty() {
                    push_event(
                        events,
                        ChatStreamEvent::CommandDelta { item_id: id.to_owned(), delta: o.to_owned() },
                    );
                }
            },
            None => {},
        }
        proof {
            assert(event_views(events@) =~= event_views(old(events)@) + command_done_events(
                *item,
                opt_text(*label),
            ));
        }
    }

    fn item_completed(&mut self, params: &JsonValue, events: &mut Vec<ChatStreamEvent>)
        ensures
            (final(self)@, event_views(final(events)@)) == ({
                let (v, es) = on_item_completed(old(self)@, *params);
                (v, event_views(old(events)@) + es)
            }),
    {
        proof {
            assert(event_views(old(events)@) + Seq::empty() =~= event_views(old(events)@));
        }
        if !self.thread_matches(params) {
            return ;
        }
        let label = self.thread_label_for_params(params);
        let item = match params.get("item") {
            Some(i) => i,
            None => {
                return ;
            },
        };
        let item_type = match str_member(item, "type") {
            Some(t) => t,
            None => {
                return ;
            },
        };
        match collab_tool_from_item(item, true) {
            Some(ev) => {
                self.collab_completed(ev, events);
            },
            None => {},
        }
        let ghost e1 = event_views(events@);
        match activity_completed_from_item(item) {
            Some((item_id, title, detail)) => {
                let t = prefix_title(crate::runtime::copy_opt(&label), title);
                push_event(
                    events,
                    ChatStreamEvent::Activity {
                        item_id,
                        title: t,
                        detail,
                        agent_label: crate::runtime::copy_opt(&label),
                        complete: true,
                    },
                );
            },
            None => {},
        }
        let is_command = text_eq(item_type, "commandExecution");
        if !text_eq(item_type, "agentMessage") && !text_eq(item_type, "reasoning") && !is_command {
            proof {
                let (v, es) = on_item_completed(old(self)@, *params);
                assert(event_views(events@) =~= event_views(old(events)@) + es);
            }
            return ;
        }
        if is_command {
            self.command_done(item, &label, events);
        }
        match str_member(item, "id") {
            Some(id) => {
                push_event(events, ChatStreamEvent::ItemDone { item_id: id.to_owned() });
            },
            None => {},
        }
        proof {
            let (v, es) = on_item_completed(old(self)@, *params);
            assert(self@ == v);
            assert(event_views(events@) =~= event_views(old(events)@) + es);
        }
    }

    /// Takes one notification of the app-server into account: the events it
    /// yields and whether the turn finished or failed.
    pub fn on_notification(&mut self, method: &str, params: &JsonValue) -> (step: TurnStep)
        ensures
            (final(self)@, event_views(step.events@), step.progress@) == turn_step(
                old(self)@,
                method@,
                *params,
            ),
    {
        let mut events: Vec<ChatStreamEvent> = Vec::new();
        proof {
            assert(event_views(events@) =~= Seq::<ChatStreamEventView>::empty());
        }
        let mut progress = TurnProgress::Waiting;
        if text_eq(method, "thread/started") {
            self.thread_started(params, &mut events);
        } else if text_eq(method, "error") {
            self.error_notice(params);
        } else if text_eq(method, "turn/completed") {
            progress = self.turn_completed(params);
        } else if text_eq(method, "item/agentMessage/delta") {
            self.agent_delta(params, &mut events);
        } else if text_eq(method, "thread/tokenUsage/updated") {
            self.token_usage(params, &mut events);
        } else if text_eq(method, "item/reasoning/summaryTextDelta") || text_eq(
            method,
            "item/reasoning/textDelta",
        ) {
            self.reasoning_delta(params, &mut events);
        } else if text_eq(method, "item/commandExecution/outputDelta") {
            self.command_output(params, &mut events);
        } else if text_eq(method, "item/started") {
            self.item_started(params, &mut events);
        } else if text_eq(method, "item/completed") {
            self.item_completed(params, &mut events);
        }
        proof {
            assert(Seq::<ChatStreamEventView>::empty() + Seq::<ChatStreamEventView>::empty()
                =~= Seq::<ChatStreamEventView>::empty());
        }
        TurnStep { events, progress }
    }
}

/// A token usage update of the turn's thread reports, as the context in
/// use, the tokens of the last request (`tokenUsage.last.totalTokens`), as
/// the session total the tokens of all requests (`tokenUsage.total.totalTokens`),
/// and the model's context window (`tokenUsage.modelContextWindow`), as one
/// event, and leaves the watch and the turn as they were; an update of
/// another thread yields nothing.
pub proof fn law_token_usage_reads_last_and_total(
    w: TurnWatchView,
    params: JsonValue,
    last: u64,
    total: u64,
    window: u64,
)
    ensures
        str_at(params, "threadId"@) == Some(w.thread_id) && u64_of(
            at_path(params, seq!["tokenUsage"@, "last"@, "totalTokens"@]),
        ) == Some(last) && u64_of(at_path(params, seq!["tokenUsage"@, "total"@, "totalTokens"@]))
            == Some(total) && u64_of(at_path(params, seq!["tokenUsage"@, "modelContextWindow"@]))
            == Some(window) ==> turn_step(w, "thread/tokenUsage/updated"@, params) == (
            w,
            seq![
                ChatStreamEventView::TokenUsage {
                    context_tokens: last,
                    session_total_tokens: total,
                    context_window: window,
                },
            ],
            ProgressView::Waiting,
        ),
        str_at(params, "threadId"@) != Some(w.thread_id) ==> turn_step(
            w,
            "thread/tokenUsage/updated"@,
            params,
        ).1.len() == 0,
{
    reveal_strlit("thread/tokenUsage/updated");
    reveal_strlit("thread/started");
    reveal_strlit("error");
    reveal_strlit("turn/completed");
    reveal_strlit("item/agentMessage/delta");
    let m = "thread/tokenUsage/updated"@;
    assert(m.len() != "thread/started"@.len());
    assert(m.len() != "error"@.len());
    assert(m.len() != "turn/completed"@.len());
    assert(m.len() != "item/agentMessage/delta"@.len());
    assert(m != "thread/started"@ && m != "error"@ && m != "turn/completed"@ && m != "item/agentMessage/delta"@);
}

} // verus!
