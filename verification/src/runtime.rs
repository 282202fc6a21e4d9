//! The values that flow between the app-server stream and the interface:
//! stream events, turn settings, attachments and model descriptions.
use vstd::prelude::*;

verus! {

/// One event of a chat turn as the interface consumes it.
#[derive(Debug, Clone, PartialEq)]
pub enum ChatStreamEvent {
    CodexRuntimeDialog { message: Option<String> },
    ThreadReady { thread_id: String },
    TurnStarted { turn_id: String },
    Status { message: String },
    Activity {
        item_id: String,
        title: String,
        detail: String,
        agent_label: Option<String>,
        complete: bool,
    },
    AgentThread { thread_id: String, label: String },
    CollabTool {
        item_id: String,
        title: String,
        detail: String,
        agent_label: Option<String>,
        tool: String,
        sender_thread_id: String,
        receiver_thread_ids: Vec<String>,
        model: Option<String>,
        reasoning_effort: Option<String>,
        agent_states: Vec<CollabAgentStateInfo>,
        complete: bool,
    },
    TokenUsage { context_tokens: u64, session_total_tokens: u64, context_window: u64 },
    AssistantDelta { item_id: String, title: Option<String>, delta: String },
    ReasoningDelta { item_id: String, title: Option<String>, delta: String },
    CommandStarted { item_id: String, title: Option<String>, command: String },
    CommandDelta { item_id: String, delta: String },
    ItemDone { item_id: String },
    Error { message: String },
    Completed,
}

/// The state of one collaborating agent thread as the server reports it.
#[derive(Debug, Clone, PartialEq, Eq)]
pub struct CollabAgentStateInfo {
    pub thread_id: String,
    pub status: String,
    pub message: Option<String>,
}

/// The model settings a turn runs with.
#[derive(Debug, Clone, PartialEq, Eq)]
pub struct ChatTurnSettings {
    pub model: String,
    pub effort: Option<String>,
    pub service_tier: Option<String>,
    pub long_context: bool,
}

/// Whether an attachment is sent as an image or named as a file.
#[derive(Debug, Clone, Copy, PartialEq, Eq)]
pub enum ChatAttachmentKind {
    Image,
    File,
}

/// A file attached to a prompt.
#[derive(Debug, Clone, PartialEq, Eq)]
pub struct ChatAttachment {
    pub name: String,
    pub path: String,
    pub kind: ChatAttachmentKind,
}

/// A model that the app-server offers.
#[derive(Debug, Clone, PartialEq, Eq)]
pub struct ChatModelInfo {
    pub id: String,
    pub display_name: String,
    pub description: String,
    pub default_effort: Option<String>,
    pub supported_efforts: Vec<ChatReasoningEffortInfo>,
    pub is_default: bool,
}

/// A reasoning effort that a model supports.
#[derive(Debug, Clone, PartialEq, Eq)]
pub struct ChatReasoningEffortInfo {
    pub effort: String,
    pub description: String,
}

/// The text of an optional string.
pub open spec fn opt_text(o: Option<String>) -> Option<Seq<char>> {
    match o {
        Some(s) => Some(s@),
        None => None,
    }
}

/// A copy of an optional string.
pub fn copy_opt(o: &Option<String>) -> (r: Option<String>)
    ensures
        opt_text(r) == opt_text(*o),
{
    match o {
        Some(s) => Some(s.clone()),
        None => None,
    }
}

/// An agent state as plain text.
pub struct AgentStateView {
    pub thread_id: Seq<char>,
    pub status: Seq<char>,
    pub message: Option<Seq<char>>,
}

impl View for CollabAgentStateInfo {
    type V = AgentStateView;

    open spec fn view(&self) -> AgentStateView {
        AgentStateView {
            thread_id: self.thread_id@,
            status: self.status@,
            message: opt_text(self.message),
        }
    }
}

/// The views of a sequence of agent states.
pub open spec fn state_views(s: Seq<CollabAgentStateInfo>) -> Seq<AgentStateView> {
    s.map_values(|x: CollabAgentStateInfo| x@)
}

/// The texts of a sequence of strings.
pub open spec fn string_views(s: Seq<String>) -> Seq<Seq<char>> {
    s.map_values(|x: String| x@)
}

/// A stream event as plain values.
pub enum ChatStreamEventView {
    CodexRuntimeDialog { message: Option<Seq<char>> },
    ThreadReady { thread_id: Seq<char> },
    TurnStarted { turn_id: Seq<char> },
    Status { message: Seq<char> },
    Activity {
        item_id: Seq<char>,
        title: Seq<char>,
        detail: Seq<char>,
        agent_label: Option<Seq<char>>,
        complete: bool,
    },
    AgentThread { thread_id: Seq<char>, label: Seq<char> },
    CollabTool {
        item_id: Seq<char>,
        title: Seq<char>,
        detail: Seq<char>,
        agent_label: Option<Seq<char>>,
        tool: Seq<char>,
        sender_thread_id: Seq<char>,
        receiver_thread_ids: Seq<Seq<char>>,
        model: Option<Seq<char>>,
        reasoning_effort: Option<Seq<char>>,
        agent_states: Seq<AgentStateView>,
        complete: bool,
    },
    TokenUsage { context_tokens: u64, session_total_tokens: u64, context_window: u64 },
    AssistantDelta { item_id: Seq<char>, title: Option<Seq<char>>, delta: Seq<char> },
    ReasoningDelta { item_id: Seq<char>, title: Option<Seq<char>>, delta: Seq<char> },
    CommandStarted { item_id: Seq<char>, title: Option<Seq<char>>, command: Seq<char> },
    CommandDelta { item_id: Seq<char>, delta: Seq<char> },
    ItemDone { item_id: Seq<char> },
    Error { message: Seq<char> },
    Completed,
}

impl View for ChatStreamEvent {
    type V = ChatStreamEventView;

    open spec fn view(&self) -> ChatStreamEventView {
        match *self {
            ChatStreamEvent::CodexRuntimeDialog { message } => ChatStreamEventView::CodexRuntimeDialog {
                message: opt_text(message),
            },
            ChatStreamEvent::ThreadReady { thread_id } => ChatStreamEventView::ThreadReady {
                thread_id: thread_id@,
            },
            ChatStreamEvent::TurnStarted { turn_id } => ChatStreamEventView::TurnStarted {
                turn_id: turn_id@,
            },
            ChatStreamEvent::Status { message } => ChatStreamEventView::Status { message: message@ },
            ChatStreamEvent::Activity { item_id, title, detail, agent_label, complete } => {
                ChatStreamEventView::Activity {
                    item_id: item_id@,
                    title: title@,
                    detail: detail@,
                    agent_label: opt_text(agent_label),
                    complete: complete,
                }
            },
            ChatStreamEvent::AgentThread { thread_id, label } => ChatStreamEventView::AgentThread {
                thread_id: thread_id@,
                label: label@,
            },
            ChatStreamEvent::CollabTool {
                item_id,
                title,
                detail,
                agent_label,
                tool,
                sender_thread_id,
                receiver_thread_ids,
                model,
                reasoning_effort,
                agent_states,
                complete,
            } => ChatStreamEventView::CollabTool {
                item_id: item_id@,
                title: title@,
                detail: detail@,
                agent_label: opt_text(agent_label),
                tool: tool@,
                sender_thread_id: sender_thread_id@,
                receiver_thread_ids: string_views(receiver_thread_ids@),
                model: opt_text(model),
                reasoning_effort: opt_text(reasoning_effort),
                agent_states: state_views(agent_states@),
                complete: complete,
            },
            ChatStreamEvent::TokenUsage { context_tokens, session_total_tokens, context_window } => {
                ChatStreamEventView::TokenUsage {
                    context_tokens: context_tokens,
                    session_total_tokens: session_total_tokens,
                    context_window: context_window,
                }
            },
            ChatStreamEvent::AssistantDelta { item_id, title, delta } => {
                ChatStreamEventView::AssistantDelta {
                    item_id: item_id@,
                    title: opt_text(title),
                    delta: delta@,
                }
            },
            ChatStreamEvent::ReasoningDelta { item_id, title, delta } => {
                ChatStreamEventView::ReasoningDelta {
                    item_id: item_id@,
                    title: opt_text(title),
                    delta: delta@,
                }
            },
            ChatStreamEvent::CommandStarted { item_id, title, command } => {
                ChatStreamEventView::CommandStarted {
                    item_id: item_id@,
                    title: opt_text(title),
                    command: command@,
                }
            },
            ChatStreamEvent::CommandDelta { item_id, delta } => ChatStreamEventView::CommandDelta {
                item_id: item_id@,
                delta: delta@,
            },
            ChatStreamEvent::ItemDone { item_id } => ChatStreamEventView::ItemDone {
                item_id: item_id@,
            },
            ChatStreamEvent::Error { message } => ChatStreamEventView::Error { message: message@ },
            ChatStreamEvent::Completed => ChatStreamEventView::Completed,
        }
    }
}

/// The views of a sequence of events.
pub open spec fn event_views(s: Seq<ChatStreamEvent>) -> Seq<ChatStreamEventView> {
    s.map_values(|e: ChatStreamEvent| e@)
}


/// A reasoning effort as plain text.
pub struct EffortView {
    pub effort: Seq<char>,
    pub description: Seq<char>,
}

impl View for ChatReasoningEffortInfo {
    type V = EffortView;

    open spec fn view(&self) -> EffortView {
        EffortView { effort: self.effort@, description: self.description@ }
    }
}

/// A model description as plain values.
pub struct ModelView {
    pub id: Seq<char>,
    pub display_name: Seq<char>,
    pub description: Seq<char>,
    pub default_effort: Option<Seq<char>>,
    pub supported_efforts: Seq<EffortView>,
    pub is_default: bool,
}

impl View for ChatModelInfo {
    type V = ModelView;

    open spec fn view(&self) -> ModelView {
        ModelView {
            id: self.id@,
            display_name: self.display_name@,
            description: self.description@,
            default_effort: opt_text(self.default_effort),
            supported_efforts: self.supported_efforts@.map_values(
                |e: ChatReasoningEffortInfo| e@,
            ),
            is_default: self.is_default,
        }
    }
}

} // verus!
