//! The swarm projection: a tree of nodes (the main brain, one node per
//! turn, the items of a turn and the agents it spawned) that follows the
//! events of the chat stream.
use vstd::prelude::*;

use crate::tokens::{format_token_count, token_count_text};
use crate::runtime::{
    copy_opt, opt_text, ChatAttachment, ChatStreamEvent, ChatTurnSettings, CollabAgentStateInfo,
};
use crate::swarm_shape::{
    forest_ids, has_key, law_agent_tree_complete, law_cycles_left_out, law_start_turn_keeps_tree,
    law_threads_follow_events, lemma_event_keeps_shape, lemma_forest_shape,
    lemma_initial_well_formed, lemma_interrupted_keeps_shape, lemma_shape_one_agent_per_thread,
    lemma_started_keeps_shape, on_active_cycle, one_agent_per_thread, received, tree_links,
    tree_roots, well_formed,
};
use crate::text::{
    chars_of, compact, decimal, decimal2, dot_sep, excerpt_chars, excerpt_of, extend_chars,
    has_sub, has_sub_exec, is_whitespace_char, join, join_chars, push_decimal, replace_all,
    replace_chars, string_from, text_eq, trim, trim_chars,
};

verus! {

/// What a node of the projection stands for.
#[derive(Clone, Copy, Debug, PartialEq, Eq, Structural)]
pub enum SwarmNodeKind {
    Brain,
    Turn,
    Agent,
    Activity,
    Command,
}

/// Where a node stands in its life.
#[derive(Clone, Copy, Debug, PartialEq, Eq, Structural)]
pub enum SwarmNodeStatus {
    Idle,
    Queued,
    Running,
    Waiting,
    Complete,
    Failed,
    Interrupted,
}

/// One node of the projection.
#[derive(Clone, Debug, PartialEq, Eq)]
pub struct SwarmNode {
    pub id: String,
    pub parent_id: Option<String>,
    pub kind: SwarmNodeKind,
    pub status: SwarmNodeStatus,
    pub title: String,
    pub subtitle: String,
    pub detail: String,
    pub model: Option<String>,
    pub reasoning: Option<String>,
    pub service_tier: Option<String>,
    pub thread_id: Option<String>,
    pub turn_id: Option<String>,
    pub long_context: bool,
    pub order: usize,
}

/// A node of the projection as plain text and numbers.
#[verifier::ext_equal]
pub struct SwarmNodeView {
    pub id: Seq<char>,
    pub parent_id: Option<Seq<char>>,
    pub kind: SwarmNodeKind,
    pub status: SwarmNodeStatus,
    pub title: Seq<char>,
    pub subtitle: Seq<char>,
    pub detail: Seq<char>,
    pub model: Option<Seq<char>>,
    pub reasoning: Option<Seq<char>>,
    pub service_tier: Option<Seq<char>>,
    pub thread_id: Option<Seq<char>>,
    pub turn_id: Option<Seq<char>>,
    pub long_context: bool,
    pub order: nat,
}

impl View for SwarmNode {
    type V = SwarmNodeView;

    open spec fn view(&self) -> SwarmNodeView {
        SwarmNodeView {
            id: self.id@,
            parent_id: opt_text(self.parent_id),
            kind: self.kind,
            status: self.status,
            title: self.title@,
            subtitle: self.subtitle@,
            detail: self.detail@,
            model: opt_text(self.model),
            reasoning: opt_text(self.reasoning),
            service_tier: opt_text(self.service_tier),
            thread_id: opt_text(self.thread_id),
            turn_id: opt_text(self.turn_id),
            long_context: self.long_context,
            order: self.order as nat,
        }
    }
}

impl SwarmNode {
    /// A copy of the node.
    pub fn copy(&self) -> (r: SwarmNode)
        ensures
            r@ == self@,
    {
        SwarmNode {
            id: self.id.clone(),
            parent_id: copy_opt(&self.parent_id),
            kind: self.kind,
            status: self.status,
            title: self.title.clone(),
            subtitle: self.subtitle.clone(),
            detail: self.detail.clone(),
            model: copy_opt(&self.model),
            reasoning: copy_opt(&self.reasoning),
            service_tier: copy_opt(&self.service_tier),
            thread_id: copy_opt(&self.thread_id),
            turn_id: copy_opt(&self.turn_id),
            long_context: self.long_context,
            order: self.order,
        }
    }
}

/// An edge of the canvas, from the brain to an agent.
#[derive(Clone, Debug, PartialEq, Eq)]
pub struct SwarmEdge {
    pub from_id: String,
    pub to_id: String,
}

/// An active agent with the active agents it spawned.
#[derive(Debug, PartialEq, Eq)]
pub struct SwarmAgentTreeNode {
    pub id: String,
    pub title: String,
    pub subtitle: String,
    pub detail: String,
    pub status: SwarmNodeStatus,
    pub model: Option<String>,
    pub reasoning: Option<String>,
    pub children: Vec<SwarmAgentTreeNode>,
}

/// The id of the main brain.
pub open spec fn root_id() -> Seq<char> {
    "swarm-root"@
}

/// The label of `n` attachments; empty when there are none.
pub open spec fn attachment_label(n: nat) -> Seq<char> {
    if n == 0 {
        Seq::empty()
    } else if n == 1 {
        "1 attachment"@
    } else {
        decimal(n) + " attachments"@
    }
}

/// The trimmed prompt with its attachment count, or a placeholder.
pub open spec fn prompt_summary(prompt: Seq<char>, n: nat) -> Seq<char> {
    let t = trim(prompt);
    if t.len() == 0 {
        if n == 0 {
            "Prompt pending"@
        } else {
            attachment_label(n)
        }
    } else if n == 0 {
        t
    } else {
        t + dot_sep() + attachment_label(n)
    }
}

/// The display name of a model id.
pub open spec fn model_display(m: Seq<char>) -> Seq<char> {
    if m == "gpt-5.4-pro"@ {
        "GPT-5.4 Pro"@
    } else if m == "gpt-5.4"@ {
        "GPT-5.4"@
    } else if m == "gpt-5.4-mini"@ {
        "GPT-5.4 Mini"@
    } else if m == "gpt-5.4-nano"@ {
        "GPT-5.4 Nano"@
    } else {
        m
    }
}

/// The display name of a reasoning effort.
pub open spec fn effort_display(e: Seq<char>) -> Seq<char> {
    if e == "none"@ {
        "None"@
    } else if e == "low"@ {
        "Low"@
    } else if e == "medium"@ {
        "Medium"@
    } else if e == "high"@ {
        "High"@
    } else if e == "xhigh"@ {
        "XHigh"@
    } else {
        e
    }
}

/// The labels that describe the settings of a turn.
pub open spec fn turn_setting_parts(s: ChatTurnSettings) -> Seq<Seq<char>> {
    let p0 = seq![model_display(s.model@)];
    let p1 = match s.effort {
        Some(e) => p0.push(effort_display(e@)),
        None => p0,
    };
    let p2 = if opt_text(s.service_tier) == Some("fast"@) {
        p1.push("Fast"@)
    } else {
        p1
    };
    if s.long_context {
        p2.push("1M"@)
    } else {
        p2
    }
}

/// The settings of a turn on one line.
pub open spec fn turn_settings_line(s: ChatTurnSettings) -> Seq<char> {
    join(turn_setting_parts(s), dot_sep())
}

/// The preview after `delta` was added to `target`: whitespace-only deltas
/// leave it unchanged, otherwise the joined text is cut to 180 characters.
pub open spec fn preview_after(target: Seq<char>, delta: Seq<char>) -> Seq<char> {
    if trim(delta).len() == 0 {
        target
    } else if target.len() == 0 {
        excerpt_of(trim(delta), 180)
    } else {
        excerpt_of(trim(target) + seq![' '] + trim(delta), 180)
    }
}

/// Queued, running and waiting nodes are active.
pub open spec fn active_status(s: SwarmNodeStatus) -> bool {
    s == SwarmNodeStatus::Queued || s == SwarmNodeStatus::Running || s == SwarmNodeStatus::Waiting
}

/// The node status that an agent state reports.
pub open spec fn state_status(s: Seq<char>) -> SwarmNodeStatus {
    if s == "pendingInit"@ {
        SwarmNodeStatus::Queued
    } else if s == "running"@ {
        SwarmNodeStatus::Running
    } else if s == "interrupted"@ {
        SwarmNodeStatus::Interrupted
    } else if s == "completed"@ {
        SwarmNodeStatus::Complete
    } else if s == "errored"@ || s == "notFound"@ {
        SwarmNodeStatus::Failed
    } else if s == "shutdown"@ {
        SwarmNodeStatus::Complete
    } else {
        SwarmNodeStatus::Running
    }
}

/// The subtitle that an agent state reports.
pub open spec fn state_subtitle(s: Seq<char>) -> Seq<char> {
    if s == "pendingInit"@ {
        "Pending init"@
    } else if s == "running"@ {
        "Running"@
    } else if s == "interrupted"@ {
        "Interrupted"@
    } else if s == "completed"@ {
        "Completed"@
    } else if s == "errored"@ {
        "Errored"@
    } else if s == "shutdown"@ {
        "Shutdown"@
    } else if s == "notFound"@ {
        "Missing"@
    } else {
        "Running"@
    }
}

/// The node after an agent state was applied to it.
pub open spec fn with_agent_state(n: SwarmNodeView, st: CollabAgentStateInfo) -> SwarmNodeView {
    SwarmNodeView {
        status: state_status(st.status@),
        subtitle: state_subtitle(st.status@),
        detail: match st.message {
            Some(m) => m@,
            None => n.detail,
        },
        ..n
    }
}

fn lit(s: &str) -> (v: Vec<char>)
    ensures
        v@ == s@,
{
    chars_of(s)
}

/// The label of `n` attachments; empty when there are none.
fn attachment_label_chars(n: usize) -> (r: Vec<char>)
    ensures
        r@ == attachment_label(n as nat),
{
    if n == 0 {
        Vec::new()
    } else if n == 1 {
        lit("1 attachment")
    } else {
        let mut r: Vec<char> = Vec::new();
        push_decimal(&mut r, n as u64);
        extend_chars(&mut r, &lit(" attachments"));
        proof {
            assert(Seq::<char>::empty() + decimal(n as nat) == decimal(n as nat));
        }
        r
    }
}

/// The trimmed prompt with its attachment count, or "Prompt pending".
pub fn summarize_prompt(prompt: &str, attachment_count: usize) -> (r: String)
    ensures
        r@ == prompt_summary(prompt@, attachment_count as nat),
{
    let t = trim_chars(&chars_of(prompt));
    let label = attachment_label_chars(attachment_count);
    let mut out: Vec<char> = Vec::new();
    if t.len() == 0 {
        if attachment_count == 0 {
            out = lit("Prompt pending");
        } else {
            out = label;
        }
    } else if attachment_count == 0 {
        out = t;
    } else {
        extend_chars(&mut out, &t);
        extend_chars(&mut out, &dot_separator());
        extend_chars(&mut out, &label);
        proof {
            assert(Seq::<char>::empty() + t@ + dot_sep() + label@ == t@ + dot_sep() + label@);
        }
    }
    string_from(&out)
}

/// The summary of the prompt, cut to 78 characters.
pub fn summarize_prompt_short(prompt: &str, attachment_count: usize) -> (r: String)
    ensures
        r@ == excerpt_of(prompt_summary(prompt@, attachment_count as nat), 78),
{
    let s = summarize_prompt(prompt, attachment_count);
    excerpt(s.as_str(), 78)
}

fn dot_separator() -> (r: Vec<char>)
    ensures
        r@ == dot_sep(),
{
    let mut r: Vec<char> = Vec::new();
    r.push(' ');
    r.push('\u{b7}');
    r.push(' ');
    proof {
        assert(r@ == dot_sep());
    }
    r
}

/// The display name of a model id.
pub fn display_model(model: &str) -> (r: String)
    ensures
        r@ == model_display(model@),
{
    if text_eq(model, "gpt-5.4-pro") {
        "GPT-5.4 Pro".to_owned()
    } else if text_eq(model, "gpt-5.4") {
        "GPT-5.4".to_owned()
    } else if text_eq(model, "gpt-5.4-mini") {
        "GPT-5.4 Mini".to_owned()
    } else if text_eq(model, "gpt-5.4-nano") {
        "GPT-5.4 Nano".to_owned()
    } else {
        model.to_owned()
    }
}

/// The display name of a reasoning effort.
pub fn display_effort(effort: &str) -> (r: String)
    ensures
        r@ == effort_display(effort@),
{
    if text_eq(effort, "none") {
        "None".to_owned()
    } else if text_eq(effort, "low") {
        "Low".to_owned()
    } else if text_eq(effort, "medium") {
        "Medium".to_owned()
    } else if text_eq(effort, "high") {
        "High".to_owned()
    } else if text_eq(effort, "xhigh") {
        "XHigh".to_owned()
    } else {
        effort.to_owned()
    }
}

/// The model, effort, fast tier and long context of a turn, joined by " · ".
pub fn format_turn_settings(settings: &ChatTurnSettings) -> (r: String)
    ensures
        r@ == turn_settings_line(*settings),
{
    let mut parts: Vec<Vec<char>> = Vec::new();
    let m = display_model(settings.model.as_str());
    parts.push(chars_of(m.as_str()));
    match &settings.effort {
        Some(e) => {
            let d = display_effort(e.as_str());
            parts.push(chars_of(d.as_str()));
        },
        None => {},
    }
    let fast = match &settings.service_tier {
        Some(t) => text_eq(t.as_str(), "fast"),
        None => false,
    };
    if fast {
        parts.push(lit("Fast"));
    }
    if settings.long_context {
        parts.push(lit("1M"));
    }
    let sep = dot_separator();
    let r = join_chars(&parts, &sep);
    proof {
        assert(parts@.map_values(|p: Vec<char>| p@) == turn_setting_parts(*settings));
    }
    string_from(&r)
}

/// The words of `input` joined by single spaces and cut to `max_chars`
/// characters, with an ellipsis when something was cut.
pub fn excerpt(input: &str, max_chars: usize) -> (r: String)
    ensures
        r@ == excerpt_of(input@, max_chars as nat),
{
    let v = chars_of(input);
    let e = excerpt_chars(&v, max_chars);
    string_from(&e)
}

/// Adds `delta` to the preview text in `target`.
pub fn append_preview(target: &mut String, delta: &str)
    ensures
        final(target)@ == preview_after(old(target)@, delta@),
{
    let d = trim_chars(&chars_of(delta));
    if d.len() == 0 {
        return ;
    }
    let t = chars_of(target.as_str());
    if t.len() == 0 {
        *target = string_from(&excerpt_chars(&d, 180));
        return ;
    }
    let mut joined = trim_chars(&t);
    joined.push(' ');
    extend_chars(&mut joined, &d);
    proof {
        assert(joined@ == trim(t@) + seq![' '] + d@);
    }
    *target = string_from(&excerpt_chars(&joined, 180));
}

/// Whether a status counts as active.
pub fn is_active_agent_status(status: SwarmNodeStatus) -> (b: bool)
    ensures
        b == active_status(status),
{
    status == SwarmNodeStatus::Queued || status == SwarmNodeStatus::Running || status
        == SwarmNodeStatus::Waiting
}

/// Applies a reported agent state to a node.
pub fn apply_agent_state_to_node(node: &mut SwarmNode, state: &CollabAgentStateInfo)
    ensures
        final(node)@ == with_agent_state(old(node)@, *state),
{
    let s = state.status.as_str();
    node.status = if text_eq(s, "pendingInit") {
        SwarmNodeStatus::Queued
    } else if text_eq(s, "running") {
        SwarmNodeStatus::Running
    } else if text_eq(s, "interrupted") {
        SwarmNodeStatus::Interrupted
    } else if text_eq(s, "completed") {
        SwarmNodeStatus::Complete
    } else if text_eq(s, "errored") || text_eq(s, "notFound") {
        SwarmNodeStatus::Failed
    } else if text_eq(s, "shutdown") {
        SwarmNodeStatus::Complete
    } else {
        SwarmNodeStatus::Running
    };
    node.subtitle = if text_eq(s, "pendingInit") {
        "Pending init".to_owned()
    } else if text_eq(s, "running") {
        "Running".to_owned()
    } else if text_eq(s, "interrupted") {
        "Interrupted".to_owned()
    } else if text_eq(s, "completed") {
        "Completed".to_owned()
    } else if text_eq(s, "errored") {
        "Errored".to_owned()
    } else if text_eq(s, "shutdown") {
        "Shutdown".to_owned()
    } else if text_eq(s, "notFound") {
        "Missing".to_owned()
    } else {
        "Running".to_owned()
    };
    match &state.message {
        Some(m) => {
            node.detail = m.clone();
        },
        None => {},
    }
}

/// The texts of a sequence of strings.
pub open spec fn texts(s: Seq<String>) -> Seq<Seq<char>> {
    s.map_values(|x: String| x@)
}

/// The position of the first entry with key `k`, or -1.
#[verifier::opaque]
pub open spec fn key_pos<V>(s: Seq<(Seq<char>, V)>, k: Seq<char>) -> int {
    if exists|i: int| 0 <= i < s.len() && s[i].0 == k {
        choose|i: int|
            0 <= i < s.len() && s[i].0 == k && (forall|j: int| 0 <= j < i ==> s[j].0 != k)
    } else {
        -1
    }
}

/// The position of the first node with id `id`, or -1.
#[verifier::opaque]
pub open spec fn node_pos(s: Seq<SwarmNodeView>, id: Seq<char>) -> int {
    if exists|i: int| 0 <= i < s.len() && s[i].id == id {
        choose|i: int|
            0 <= i < s.len() && s[i].id == id && (forall|j: int| 0 <= j < i ==> s[j].id != id)
    } else {
        -1
    }
}

/// The node with id `id`, if there is one.
pub open spec fn node_at(s: Seq<SwarmNodeView>, id: Seq<char>) -> Option<SwarmNodeView> {
    let i = node_pos(s, id);
    if i >= 0 {
        Some(s[i])
    } else {
        None
    }
}

/// The nodes with `n` stored under its id, replacing the node with that id.
pub open spec fn put_node(s: Seq<SwarmNodeView>, n: SwarmNodeView) -> Seq<SwarmNodeView> {
    let i = node_pos(s, n.id);
    if i >= 0 {
        s.update(i, n)
    } else {
        s.push(n)
    }
}

/// The nodes with the node of id `id` replaced by `n`, if there is one.
pub open spec fn replace_node(s: Seq<SwarmNodeView>, id: Seq<char>, n: SwarmNodeView) -> Seq<
    SwarmNodeView,
> {
    let i = node_pos(s, id);
    if i >= 0 {
        s.update(i, n)
    } else {
        s
    }
}

/// The turn id of the node with id `id`, if there is such a node and it has one.
pub open spec fn turn_of(s: Seq<SwarmNodeView>, id: Seq<char>) -> Option<Seq<char>> {
    match node_at(s, id) {
        Some(n) => n.turn_id,
        None => None,
    }
}

/// The node that key `k` is linked to.
pub open spec fn link_of(s: Seq<(Seq<char>, Seq<char>)>, k: Seq<char>) -> Option<Seq<char>> {
    let i = key_pos(s, k);
    if i >= 0 {
        Some(s[i].1)
    } else {
        None
    }
}

/// The links with `k` linked to `v`.
pub open spec fn put_link(s: Seq<(Seq<char>, Seq<char>)>, k: Seq<char>, v: Seq<char>) -> Seq<
    (Seq<char>, Seq<char>),
> {
    let i = key_pos(s, k);
    if i >= 0 {
        s.update(i, (k, v))
    } else {
        s.push((k, v))
    }
}

/// The children recorded under `parent`, in the order they were added.
pub open spec fn children_of(co: Seq<(Seq<char>, Seq<Seq<char>>)>, parent: Seq<char>) -> Seq<
    Seq<char>,
> {
    let i = key_pos(co, parent);
    if i >= 0 {
        co[i].1
    } else {
        Seq::empty()
    }
}

/// The child lists with an empty list for `parent` when it has none yet.
pub open spec fn ensure_children(co: Seq<(Seq<char>, Seq<Seq<char>>)>, parent: Seq<char>) -> Seq<
    (Seq<char>, Seq<Seq<char>>),
> {
    if key_pos(co, parent) >= 0 {
        co
    } else {
        co.push((parent, Seq::empty()))
    }
}

/// The child lists with `child` added at the end of the list of `parent`.
pub open spec fn push_child(
    co: Seq<(Seq<char>, Seq<Seq<char>>)>,
    parent: Seq<char>,
    child: Seq<char>,
) -> Seq<(Seq<char>, Seq<Seq<char>>)> {
    let i = key_pos(co, parent);
    if i >= 0 {
        co.update(i, (parent, co[i].1.push(child)))
    } else {
        co.push((parent, seq![child]))
    }
}

/// `s` without the entries equal to `x`.
pub open spec fn without(s: Seq<Seq<char>>, x: Seq<char>) -> Seq<Seq<char>>
    decreases s.len(),
{
    if s.len() == 0 {
        s
    } else if s.last() == x {
        without(s.drop_last(), x)
    } else {
        without(s.drop_last(), x).push(s.last())
    }
}

/// The child lists with `child` removed from the list of `parent`, if it has one.
pub open spec fn remove_child(
    co: Seq<(Seq<char>, Seq<Seq<char>>)>,
    parent: Seq<char>,
    child: Seq<char>,
) -> Seq<(Seq<char>, Seq<Seq<char>>)> {
    let i = key_pos(co, parent);
    if i >= 0 {
        co.update(i, (parent, without(co[i].1, child)))
    } else {
        co
    }
}

pub proof fn lemma_key_pos_found<V>(s: Seq<(Seq<char>, V)>, k: Seq<char>, i: int)
    requires
        0 <= i < s.len(),
        s[i].0 == k,
        forall|j: int| 0 <= j < i ==> s[j].0 != k,
    ensures
        key_pos(s, k) == i,
{
    reveal(key_pos);
    let c = key_pos(s, k);
    if c < i {
    } else if c > i {
    }
}

pub proof fn lemma_key_pos_none<V>(s: Seq<(Seq<char>, V)>, k: Seq<char>)
    requires
        forall|j: int| 0 <= j < s.len() ==> s[j].0 != k,
    ensures
        key_pos(s, k) == -1,
{
    reveal(key_pos);
}

pub(crate) proof fn lemma_node_pos_found(s: Seq<SwarmNodeView>, id: Seq<char>, i: int)
    requires
        0 <= i < s.len(),
        s[i].id == id,
        forall|j: int| 0 <= j < i ==> s[j].id != id,
    ensures
        node_pos(s, id) == i,
{
    reveal(node_pos);
    let c = node_pos(s, id);
    if c < i {
    } else if c > i {
    }
}

pub(crate) proof fn lemma_node_pos_none(s: Seq<SwarmNodeView>, id: Seq<char>)
    requires
        forall|j: int| 0 <= j < s.len() ==> s[j].id != id,
    ensures
        node_pos(s, id) == -1,
{
    reveal(node_pos);
}

pub(crate) proof fn lemma_without_push(s: Seq<Seq<char>>, x: Seq<char>, y: Seq<char>)
    ensures
        without(s.push(y), x) == if y == x {
            without(s, x)
        } else {
            without(s, x).push(y)
        },
{
    assert(s.push(y).drop_last() == s);
}

/// A link from an item or thread id to the node that stands for it.
#[derive(Debug)]
struct NodeLink {
    key: String,
    node_id: String,
}

impl View for NodeLink {
    type V = (Seq<char>, Seq<char>);

    closed spec fn view(&self) -> (Seq<char>, Seq<char>) {
        (self.key@, self.node_id@)
    }
}

/// The ids of the children of a node, in the order they were added.
#[derive(Debug)]
struct ChildList {
    parent: String,
    children: Vec<String>,
}

impl View for ChildList {
    type V = (Seq<char>, Seq<Seq<char>>);

    closed spec fn view(&self) -> (Seq<char>, Seq<Seq<char>>) {
        (self.parent@, texts(self.children@))
    }
}

spec fn link_views(s: Seq<NodeLink>) -> Seq<(Seq<char>, Seq<char>)> {
    s.map_values(|l: NodeLink| l@)
}

spec fn child_views(s: Seq<ChildList>) -> Seq<(Seq<char>, Seq<Seq<char>>)> {
    s.map_values(|c: ChildList| c@)
}

/// The first link with key `key`.
fn find_link(links: &Vec<NodeLink>, key: &str) -> (r: Option<usize>)
    ensures
        match r {
            Some(i) => i < links.len() && key_pos(link_views(links@), key@) == i && links@[i as int].key@
                == key@,
            None => key_pos(link_views(links@), key@) == -1 && forall|j: int|
                0 <= j < links.len() ==> links@[j].key@ != key@,
        },
{
    let ghost v = link_views(links@);
    let mut i: usize = 0;
    while i < links.len()
        invariant
            i <= links.len(),
            v == link_views(links@),
            forall|j: int| 0 <= j < i ==> v[j].0 != key@,
            forall|j: int| 0 <= j < i ==> links@[j].key@ != key@,
        decreases links.len() - i,
    {
        if text_eq(links[i].key.as_str(), key) {
            proof {
                lemma_key_pos_found(v, key@, i as int);
            }
            return Some(i);
        }
        i = i + 1;
    }
    proof {
        lemma_key_pos_none(v, key@);
    }
    None
}

/// The node id that `key` is linked to.
fn link_target(links: &Vec<NodeLink>, key: &str) -> (r: Option<String>)
    ensures
        opt_text(r) == link_of(link_views(links@), key@),
{
    match find_link(links, key) {
        Some(i) => Some(links[i].node_id.clone()),
        None => None,
    }
}

/// Links `key` to `node_id`.
fn put_link_exec(links: &mut Vec<NodeLink>, key: String, node_id: String)
    ensures
        link_views(final(links)@) == put_link(link_views(old(links)@), key@, node_id@),
{
    let k = key.clone();
    match find_link(links, k.as_str()) {
        Some(i) => {
            links.set(i, NodeLink { key, node_id });
            proof {
                assert(link_views(links@) =~= put_link(link_views(old(links)@), k@, node_id@));
            }
        },
        None => {
            links.push(NodeLink { key, node_id });
            proof {
                assert(link_views(links@) =~= put_link(link_views(old(links)@), k@, node_id@));
            }
        },
    }
}

/// The first child list of `parent`.
fn find_children(co: &Vec<ChildList>, parent: &str) -> (r: Option<usize>)
    ensures
        match r {
            Some(i) => i < co.len() && key_pos(child_views(co@), parent@) == i && co@[i as int].parent@
                == parent@,
            None => key_pos(child_views(co@), parent@) == -1 && forall|j: int|
                0 <= j < co.len() ==> co@[j].parent@ != parent@,
        },
{
    let ghost v = child_views(co@);
    let mut i: usize = 0;
    while i < co.len()
        invariant
            i <= co.len(),
            v == child_views(co@),
            forall|j: int| 0 <= j < i ==> v[j].0 != parent@,
            forall|j: int| 0 <= j < i ==> co@[j].parent@ != parent@,
        decreases co.len() - i,
    {
        if text_eq(co[i].parent.as_str(), parent) {
            proof {
                lemma_key_pos_found(v, parent@, i as int);
            }
            return Some(i);
        }
        i = i + 1;
    }
    proof {
        lemma_key_pos_none(v, parent@);
    }
    None
}

fn copy_texts(v: &Vec<String>) -> (r: Vec<String>)
    ensures
        texts(r@) == texts(v@),
{
    let mut r: Vec<String> = Vec::new();
    for i in 0..v.len()
        invariant
            texts(r@) == texts(v@).take(i as int),
    {
        let ghost before = r@;
        let c = v[i].clone();
        proof {
            assert(c@ == v@[i as int]@);
        }
        r.push(c);
        proof {
            assert(r@ == before.push(c));
            assert(texts(r@) == texts(before).push(c@));
            assert(texts(r@) =~= texts(v@).take(i + 1));
        }
    }
    proof {
        assert(texts(v@).take(v.len() as int) == texts(v@));
    }
    r
}

/// Makes sure `parent` has a child list.
fn ensure_children_exec(co: &mut Vec<ChildList>, parent: &str)
    ensures
        child_views(final(co)@) == ensure_children(child_views(old(co)@), parent@),
{
    match find_children(co, parent) {
        Some(_) => {},
        None => {
            let kids: Vec<String> = Vec::new();
            proof {
                assert(texts(kids@) =~= Seq::<Seq<char>>::empty());
            }
            co.push(ChildList { parent: parent.to_owned(), children: kids });
            proof {
                assert(child_views(co@) =~= ensure_children(child_views(old(co)@), parent@));
            }
        },
    }
}

/// Adds `child` at the end of the list of `parent`; returns the new length
/// of that list.
fn push_child_exec(co: &mut Vec<ChildList>, parent: &str, child: &str) -> (len: usize)
    ensures
        child_views(final(co)@) == push_child(child_views(old(co)@), parent@, child@),
        len == children_of(child_views(old(co)@), parent@).len() + 1,
{
    match find_children(co, parent) {
        Some(i) => {
            let mut kids = copy_texts(&co[i].children);
            kids.push(child.to_owned());
            let n = kids.len();
            let p = co[i].parent.clone();
            co.set(i, ChildList { parent: p, children: kids });
            proof {
                assert(texts(kids@) =~= texts(old(co)@[i as int].children@).push(child@));
                assert(child_views(co@) =~= push_child(child_views(old(co)@), parent@, child@));
            }
            n
        },
        None => {
            let mut kids: Vec<String> = Vec::new();
            kids.push(child.to_owned());
            co.push(ChildList { parent: parent.to_owned(), children: kids });
            proof {
                assert(texts(kids@) =~= seq![child@]);
                assert(child_views(co@) =~= push_child(child_views(old(co)@), parent@, child@));
            }
            1
        },
    }
}

/// The strings of `v` other than `x`.
fn without_exec(v: &Vec<String>, x: &str) -> (r: Vec<String>)
    ensures
        texts(r@) == without(texts(v@), x@),
{
    let mut kept: Vec<String> = Vec::new();
    let ghost src = texts(v@);
    for j in 0..v.len()
        invariant
            src == texts(v@),
            texts(kept@) == without(src.take(j as int), x@),
    {
        let c = v[j].clone();
        proof {
            assert(c@ == src[j as int]);
            assert(src.take(j + 1) == src.take(j as int).push(c@));
            lemma_without_push(src.take(j as int), x@, c@);
        }
        if !text_eq(c.as_str(), x) {
            let ghost before = kept@;
            kept.push(c);
            proof {
                assert(kept@ == before.push(c));
                assert(texts(kept@) =~= texts(before).push(c@));
            }
        }
    }
    proof {
        assert(src.take(v.len() as int) == src);
    }
    kept
}

/// Removes `child` from the list of `parent`, if it has one.
fn remove_child_exec(co: &mut Vec<ChildList>, parent: &str, child: &str)
    ensures
        child_views(final(co)@) == remove_child(child_views(old(co)@), parent@, child@),
{
    match find_children(co, parent) {
        Some(i) => {
            let kept = without_exec(&co[i].children, child);
            let p = co[i].parent.clone();
            co.set(i, ChildList { parent: p, children: kept });
            proof {
                assert(child_views(co@) =~= remove_child(child_views(old(co)@), parent@, child@));
            }
        },
        None => {},
    }
}

/// The fields of the projection, which its steps change one at a time.
#[derive(Debug)]
struct ProjectionState {
    root: SwarmNode,
    nodes: Vec<SwarmNode>,
    turn_order: Vec<String>,
    child_order: Vec<ChildList>,
    item_nodes: Vec<NodeLink>,
    thread_nodes: Vec<NodeLink>,
    active_turn_node_id: Option<String>,
    next_turn_index: usize,
}

/// The projection as plain values: the brain, the nodes in the order they
/// were first stored, the turns in order, the child lists, the links from
/// item and thread ids to nodes, the active turn and the next turn number.
#[verifier::ext_equal]
pub struct SwarmProjectionView {
    pub root: SwarmNodeView,
    pub nodes: Seq<SwarmNodeView>,
    pub turn_order: Seq<Seq<char>>,
    pub child_order: Seq<(Seq<char>, Seq<Seq<char>>)>,
    pub item_nodes: Seq<(Seq<char>, Seq<char>)>,
    pub thread_nodes: Seq<(Seq<char>, Seq<char>)>,
    pub active_turn_node_id: Option<Seq<char>>,
    pub next_turn_index: nat,
}

impl View for ProjectionState {
    type V = SwarmProjectionView;

    closed spec fn view(&self) -> SwarmProjectionView {
        SwarmProjectionView {
            root: self.root@,
            nodes: self.nodes@.map_values(|n: SwarmNode| n@),
            turn_order: texts(self.turn_order@),
            child_order: child_views(self.child_order@),
            item_nodes: link_views(self.item_nodes@),
            thread_nodes: link_views(self.thread_nodes@),
            active_turn_node_id: opt_text(self.active_turn_node_id),
            next_turn_index: self.next_turn_index as nat,
        }
    }
}

/// The brain before any turn.
pub open spec fn initial_root() -> SwarmNodeView {
    SwarmNodeView {
        id: root_id(),
        parent_id: None,
        kind: SwarmNodeKind::Brain,
        status: SwarmNodeStatus::Idle,
        title: "Main Brain"@,
        subtitle: "Standing by"@,
        detail: "Send a message to begin the first process."@,
        model: None,
        reasoning: None,
        service_tier: None,
        thread_id: None,
        turn_id: None,
        long_context: false,
        order: 0,
    }
}

/// The projection before any event.
pub open spec fn initial_projection() -> SwarmProjectionView {
    SwarmProjectionView {
        root: initial_root(),
        nodes: Seq::empty(),
        turn_order: Seq::empty(),
        child_order: Seq::empty(),
        item_nodes: Seq::empty(),
        thread_nodes: Seq::empty(),
        active_turn_node_id: None,
        next_turn_index: 1,
    }
}

/// The id of the node of turn number `n`.
pub open spec fn turn_id_for(n: nat) -> Seq<char> {
    "turn-local-"@ + decimal(n)
}

/// The projection after a turn was started with this prompt, number of
/// attachments and settings.
pub open spec fn started(
    p: SwarmProjectionView,
    prompt: Seq<char>,
    n_att: nat,
    s: ChatTurnSettings,
) -> SwarmProjectionView {
    let n = p.next_turn_index;
    let id = turn_id_for(n);
    let node = SwarmNodeView {
        id: id,
        parent_id: Some(root_id()),
        kind: SwarmNodeKind::Turn,
        status: SwarmNodeStatus::Queued,
        title: "Turn "@ + decimal2(n),
        subtitle: turn_settings_line(s),
        detail: prompt_summary(prompt, n_att),
        model: Some(s.model@),
        reasoning: opt_text(s.effort),
        service_tier: opt_text(s.service_tier),
        thread_id: p.root.thread_id,
        turn_id: None,
        long_context: s.long_context,
        order: n,
    };
    SwarmProjectionView {
        root: SwarmNodeView {
            status: SwarmNodeStatus::Queued,
            subtitle: "Preparing turn"@,
            detail: excerpt_of(prompt_summary(prompt, n_att), 78),
            model: Some(s.model@),
            reasoning: opt_text(s.effort),
            service_tier: opt_text(s.service_tier),
            long_context: s.long_context,
            ..p.root
        },
        nodes: put_node(p.nodes, node),
        turn_order: p.turn_order.push(id),
        child_order: ensure_children(p.child_order, id),
        active_turn_node_id: Some(id),
        next_turn_index: n + 1,
        ..p
    }
}

/// The projection after the user interrupted the active turn.
pub open spec fn interrupted(p: SwarmProjectionView) -> SwarmProjectionView {
    match p.active_turn_node_id {
        None => p,
        Some(t) => {
            let nodes = match node_at(p.nodes, t) {
                Some(n) => replace_node(
                    p.nodes,
                    t,
                    SwarmNodeView {
                        status: SwarmNodeStatus::Interrupted,
                        subtitle: "Interrupted by user"@,
                        ..n
                    },
                ),
                None => p.nodes,
            };
            SwarmProjectionView {
                nodes: nodes,
                root: SwarmNodeView {
                    status: SwarmNodeStatus::Interrupted,
                    subtitle: "Interrupted"@,
                    ..p.root
                },
                ..p
            }
        },
    }
}

impl ProjectionState {
    /// An empty projection: the brain standing by and no turns.
    fn new() -> (r: ProjectionState)
        ensures
            r@ == initial_projection(),
            well_formed(r@),
    {
        let r = ProjectionState {
            root: SwarmNode {
                id: "swarm-root".to_owned(),
                parent_id: None,
                kind: SwarmNodeKind::Brain,
                status: SwarmNodeStatus::Idle,
                title: "Main Brain".to_owned(),
                subtitle: "Standing by".to_owned(),
                detail: "Send a message to begin the first process.".to_owned(),
                model: None,
                reasoning: None,
                service_tier: None,
                thread_id: None,
                turn_id: None,
                long_context: false,
                order: 0,
            },
            nodes: Vec::new(),
            turn_order: Vec::new(),
            child_order: Vec::new(),
            item_nodes: Vec::new(),
            thread_nodes: Vec::new(),
            active_turn_node_id: None,
            next_turn_index: 1,
        };
        proof {
            assert(r@.nodes =~= Seq::<SwarmNodeView>::empty());
            assert(r@.turn_order =~= Seq::<Seq<char>>::empty());
            assert(r@.child_order =~= Seq::<(Seq<char>, Seq<Seq<char>>)>::empty());
            assert(r@.item_nodes =~= Seq::<(Seq<char>, Seq<char>)>::empty());
            assert(r@.thread_nodes =~= Seq::<(Seq<char>, Seq<char>)>::empty());
            assert(r@ =~= initial_projection());
            lemma_initial_well_formed();
        }
        r
    }

    /// The number the next turn will get.
    fn next_turn_index(&self) -> (n: usize)
        ensures
            n == self@.next_turn_index,
    {
        self.next_turn_index
    }

    /// The position of the node with id `id`.
    fn find_node(&self, id: &str) -> (r: Option<usize>)
        ensures
            match r {
                Some(i) => i < self.nodes.len() && node_pos(self@.nodes, id@) == i
                    && self.nodes@[i as int].id@ == id@,
                None => node_pos(self@.nodes, id@) == -1 && node_at(self@.nodes, id@) is None,
            },
    {
        let ghost v = self@.nodes;
        let mut i: usize = 0;
        while i < self.nodes.len()
            invariant
                i <= self.nodes.len(),
                v == self@.nodes,
                forall|j: int| 0 <= j < i ==> v[j].id != id@,
            decreases self.nodes.len() - i,
        {
            if text_eq(self.nodes[i].id.as_str(), id) {
                proof {
                    lemma_node_pos_found(v, id@, i as int);
                }
                return Some(i);
            }
            i = i + 1;
        }
        proof {
            lemma_node_pos_none(v, id@);
        }
        None
    }

    /// Stores `n` at position `i` of the nodes.
    fn set_node(&mut self, i: usize, n: SwarmNode)
        requires
            i < old(self).nodes.len(),
        ensures
            final(self)@ == (SwarmProjectionView {
                nodes: old(self)@.nodes.update(i as int, n@),
                ..old(self)@
            }),
    {
        self.nodes.set(i, n);
        proof {
            assert(self@.nodes =~= old(self)@.nodes.update(i as int, n@));
            assert(self@ =~= SwarmProjectionView {
                nodes: old(self)@.nodes.update(i as int, n@),
                ..old(self)@
            });
        }
    }

    /// Stores `n` under its id.
    fn put_node_exec(&mut self, n: SwarmNode)
        ensures
            final(self)@ == (SwarmProjectionView { nodes: put_node(old(self)@.nodes, n@), ..old(self)@ }),
    {
        let id = n.id.clone();
        match self.find_node(id.as_str()) {
            Some(i) => {
                self.set_node(i, n);
            },
            None => {
                self.nodes.push(n);
                proof {
                    assert(self@.nodes =~= old(self)@.nodes.push(n@));
                    assert(self@ =~= SwarmProjectionView {
                        nodes: put_node(old(self)@.nodes, n@),
                        ..old(self)@
                    });
                }
            },
        }
    }

    /// The turn id of the node with id `id`.
    fn turn_of_node(&self, id: &str) -> (r: Option<String>)
        ensures
            opt_text(r) == turn_of(self@.nodes, id@),
    {
        match self.find_node(id) {
            Some(i) => copy_opt(&self.nodes[i].turn_id),
            None => None,
        }
    }

    /// Starts a new turn for `prompt` and returns the id of its node.
    fn start_turn(
        &mut self,
        prompt: &str,
        attachments: &[ChatAttachment],
        settings: &ChatTurnSettings,
    ) -> (turn_id: String)
        requires
            old(self)@.next_turn_index < usize::MAX,
        ensures
            final(self)@ == started(old(self)@, prompt@, attachments@.len(), *settings),
            turn_id@ == turn_id_for(old(self)@.next_turn_index),
            well_formed(old(self)@) ==> well_formed(final(self)@),
    {
        let n = self.next_turn_index;
        let mut idv: Vec<char> = lit("turn-local-");
        push_decimal(&mut idv, n as u64);
        let turn_id = string_from(&idv);
        let attachment_count = attachments.len();
        let mut tv: Vec<char> = lit("Turn ");
        if n < 10 {
            tv.push('0');
        }
        push_decimal(&mut tv, n as u64);
        proof {
            if n < 10 {
                assert(decimal(n as nat) == seq![crate::text::digit(n as nat)]);
                assert("Turn "@.push('0') + decimal(n as nat) == "Turn "@ + decimal2(n as nat));
            }
        }
        let title = string_from(&tv);
        let prompt_excerpt = summarize_prompt(prompt, attachment_count);
        let subtitle = format_turn_settings(settings);
        let node = SwarmNode {
            id: turn_id.clone(),
            parent_id: Some("swarm-root".to_owned()),
            kind: SwarmNodeKind::Turn,
            status: SwarmNodeStatus::Queued,
            title,
            subtitle,
            detail: prompt_excerpt,
            model: Some(settings.model.clone()),
            reasoning: copy_opt(&settings.effort),
            service_tier: copy_opt(&settings.service_tier),
            thread_id: copy_opt(&self.root.thread_id),
            turn_id: None,
            long_context: settings.long_context,
            order: n,
        };
        self.next_turn_index = n + 1;
        self.turn_order.push(turn_id.clone());
        self.put_node_exec(node);
        ensure_children_exec(&mut self.child_order, turn_id.as_str());
        self.active_turn_node_id = Some(turn_id.clone());
        self.root.status = SwarmNodeStatus::Queued;
        self.root.subtitle = "Preparing turn".to_owned();
        self.root.detail = summarize_prompt_short(prompt, attachment_count);
        self.root.model = Some(settings.model.clone());
        self.root.reasoning = copy_opt(&settings.effort);
        self.root.service_tier = copy_opt(&settings.service_tier);
        self.root.long_context = settings.long_context;
        proof {
            assert(self@.turn_order =~= old(self)@.turn_order.push(turn_id@));
            assert(self@ =~= started(old(self)@, prompt@, attachments@.len(), *settings));
            if well_formed(old(self)@) {
                lemma_started_keeps_shape(old(self)@, prompt@, attachments@.len(), *settings);
            }
        }
        turn_id
    }

    /// Marks the active turn and the brain as interrupted.
    fn interrupt_active(&mut self)
        ensures
            final(self)@ == interrupted(old(self)@),
            well_formed(old(self)@) ==> well_formed(final(self)@),
    {
        proof {
            if well_formed(self@) {
                lemma_interrupted_keeps_shape(self@);
            }
        }
        match &self.active_turn_node_id {
            Some(t) => {
                let turn_id = t.clone();
                match self.find_node(turn_id.as_str()) {
                    Some(i) => {
                        let mut n = self.nodes[i].copy();
                        n.status = SwarmNodeStatus::Interrupted;
                        n.subtitle = "Interrupted by user".to_owned();
                        self.set_node(i, n);
                    },
                    None => {},
                }
                self.root.status = SwarmNodeStatus::Interrupted;
                self.root.subtitle = "Interrupted".to_owned();
                proof {
                    assert(self@ =~= interrupted(old(self)@));
                }
            },
            None => {},
        }
    }
}

/// The node of the active turn, if there is one.
pub open spec fn active_node(p: SwarmProjectionView) -> Option<SwarmNodeView> {
    match p.active_turn_node_id {
        Some(t) => node_at(p.nodes, t),
        None => None,
    }
}

/// The nodes with the node of the active turn replaced by `n`.
pub open spec fn set_active(p: SwarmProjectionView, n: SwarmNodeView) -> Seq<SwarmNodeView> {
    match p.active_turn_node_id {
        Some(t) => replace_node(p.nodes, t, n),
        None => p.nodes,
    }
}

/// The node stored for the item `item_id`, made under the active turn when
/// it is new; the brain's id when there is neither.
pub open spec fn item_ensured(
    p: SwarmProjectionView,
    item_id: Seq<char>,
    title: Seq<char>,
    detail: Seq<char>,
    kind: SwarmNodeKind,
    complete: bool,
) -> (SwarmProjectionView, Seq<char>) {
    match link_of(p.item_nodes, item_id) {
        Some(existing) => (p, existing),
        None => match p.active_turn_node_id {
            None => (p, root_id()),
            Some(parent) => {
                let node_id = "node-"@ + item_id;
                let node = SwarmNodeView {
                    id: node_id,
                    parent_id: Some(parent),
                    kind: kind,
                    status: if complete {
                        SwarmNodeStatus::Complete
                    } else {
                        SwarmNodeStatus::Running
                    },
                    title: title,
                    subtitle: Seq::empty(),
                    detail: detail,
                    model: None,
                    reasoning: None,
                    service_tier: None,
                    thread_id: p.root.thread_id,
                    turn_id: turn_of(p.nodes, parent),
                    long_context: false,
                    order: children_of(p.child_order, parent).len() + 1,
                };
                (
                    SwarmProjectionView {
                        nodes: put_node(p.nodes, node),
                        child_order: push_child(p.child_order, parent, node_id),
                        item_nodes: put_link(p.item_nodes, item_id, node_id),
                        ..p
                    },
                    node_id,
                )
            },
        },
    }
}

/// The node a new agent hangs under: the node of the sending thread, or the brain.
pub open spec fn agent_parent(p: SwarmProjectionView, sender: Option<Seq<char>>) -> Seq<char> {
    match sender {
        Some(s) => match link_of(p.thread_nodes, s) {
            Some(n) => n,
            None => root_id(),
        },
        None => root_id(),
    }
}

/// The projection after the node `node_id` moved under `new_parent`, at the
/// end of its children.
pub open spec fn reparented(p: SwarmProjectionView, node_id: Seq<char>, new_parent: Seq<char>) -> SwarmProjectionView {
    let co1 = match node_at(p.nodes, node_id) {
        Some(n) => match n.parent_id {
            Some(cur) => remove_child(p.child_order, cur, node_id),
            None => p.child_order,
        },
        None => p.child_order,
    };
    let new_order = children_of(co1, new_parent).len() + 1;
    let nodes = match node_at(p.nodes, node_id) {
        Some(n) => replace_node(
            p.nodes,
            node_id,
            SwarmNodeView { parent_id: Some(new_parent), order: new_order, ..n },
        ),
        None => p.nodes,
    };
    SwarmProjectionView { child_order: push_child(co1, new_parent, node_id), nodes: nodes, ..p }
}

/// The position of the first agent state reported for `thread_id`, or -1.
#[verifier::opaque]
pub open spec fn state_pos(states: Seq<CollabAgentStateInfo>, thread_id: Seq<char>) -> int {
    if exists|i: int| 0 <= i < states.len() && states[i].thread_id@ == thread_id {
        choose|i: int|
            0 <= i < states.len() && states[i].thread_id@ == thread_id && (forall|j: int|
                0 <= j < i ==> states[j].thread_id@ != thread_id)
    } else {
        -1
    }
}

/// The node stored for the agent thread `thread_id`: an existing one moved
/// under the sender's node and relabelled, or a new queued one.
pub open spec fn agent_ensured(
    p: SwarmProjectionView,
    thread_id: Seq<char>,
    label: Seq<char>,
    model: Option<Seq<char>>,
    reasoning: Option<Seq<char>>,
    states: Seq<CollabAgentStateInfo>,
    sender: Option<Seq<char>>,
) -> (SwarmProjectionView, Seq<char>) {
    let parent = agent_parent(p, sender);
    match link_of(p.thread_nodes, thread_id) {
        Some(existing) => {
            let cur = match node_at(p.nodes, existing) {
                Some(n) => n.parent_id,
                None => None,
            };
            let q = if cur != Some(parent) {
                reparented(p, existing, parent)
            } else {
                p
            };
            let r = match node_at(q.nodes, existing) {
                Some(n) => SwarmProjectionView {
                    nodes: replace_node(
                        q.nodes,
                        existing,
                        SwarmNodeView {
                            title: label,
                            model: if model is Some {
                                model
                            } else {
                                n.model
                            },
                            reasoning: if reasoning is Some {
                                reasoning
                            } else {
                                n.reasoning
                            },
                            parent_id: Some(parent),
                            ..n
                        },
                    ),
                    ..q
                },
                None => q,
            };
            (r, existing)
        },
        None => {
            let node_id = "agent-"@ + thread_id;
            let base = SwarmNodeView {
                id: node_id,
                parent_id: Some(parent),
                kind: SwarmNodeKind::Agent,
                status: SwarmNodeStatus::Queued,
                title: label,
                subtitle: "Pending init"@,
                detail: Seq::empty(),
                model: model,
                reasoning: reasoning,
                service_tier: None,
                thread_id: Some(thread_id),
                turn_id: turn_of(p.nodes, parent),
                long_context: false,
                order: children_of(p.child_order, parent).len() + 1,
            };
            let i = state_pos(states, thread_id);
            let node = if i >= 0 {
                with_agent_state(base, states[i])
            } else {
                base
            };
            (
                SwarmProjectionView {
                    nodes: put_node(p.nodes, node),
                    child_order: push_child(p.child_order, parent, node_id),
                    thread_nodes: put_link(p.thread_nodes, thread_id, node_id),
                    ..p
                },
                node_id,
            )
        },
    }
}

/// The part of `s` after its last '-', or all of it.
pub open spec fn last_segment(s: Seq<char>) -> Seq<char>
    decreases s.len(),
{
    if s.len() == 0 {
        s
    } else if s.last() == '-' {
        Seq::empty()
    } else {
        last_segment(s.drop_last()).push(s.last())
    }
}

/// At most the first `n` characters of `s`.
pub open spec fn first_chars(s: Seq<char>, n: nat) -> Seq<char> {
    if s.len() <= n {
        s
    } else {
        s.take(n as int)
    }
}

/// The title of the agent node of `thread_id`, or "Agent " and the first four
/// characters after the last '-' of the thread id.
pub open spec fn agent_label_of(p: SwarmProjectionView, thread_id: Seq<char>) -> Seq<char> {
    let known = match link_of(p.thread_nodes, thread_id) {
        Some(nid) => node_at(p.nodes, nid),
        None => None,
    };
    match known {
        Some(n) => n.title,
        None => "Agent "@ + first_chars(last_segment(thread_id), 4),
    }
}

/// The projection after the reported agent states were applied in order.
pub open spec fn states_applied(p: SwarmProjectionView, states: Seq<CollabAgentStateInfo>) -> SwarmProjectionView
    decreases states.len(),
{
    if states.len() == 0 {
        p
    } else {
        let q = states_applied(p, states.drop_last());
        let st = states.last();
        match link_of(q.thread_nodes, st.thread_id@) {
            Some(nid) => match node_at(q.nodes, nid) {
                Some(n) => SwarmProjectionView {
                    nodes: replace_node(q.nodes, nid, with_agent_state(n, st)),
                    ..q
                },
                None => q,
            },
            None => q,
        }
    }
}

/// The projection after an agent node was ensured for each receiving thread.
pub open spec fn receivers_linked(
    p: SwarmProjectionView,
    receivers: Seq<String>,
    model: Option<Seq<char>>,
    reasoning: Option<Seq<char>>,
    states: Seq<CollabAgentStateInfo>,
    sender: Seq<char>,
) -> SwarmProjectionView
    decreases receivers.len(),
{
    if receivers.len() == 0 {
        p
    } else {
        let q = receivers_linked(p, receivers.drop_last(), model, reasoning, states, sender);
        let r = receivers.last()@;
        agent_ensured(q, r, agent_label_of(q, r), model, reasoning, states, Some(sender)).0
    }
}

proof fn lemma_state_pos_found(s: Seq<CollabAgentStateInfo>, k: Seq<char>, i: int)
    requires
        0 <= i < s.len(),
        s[i].thread_id@ == k,
        forall|j: int| 0 <= j < i ==> s[j].thread_id@ != k,
    ensures
        state_pos(s, k) == i,
{
    reveal(state_pos);
    let c = state_pos(s, k);
    if c < i {
    } else if c > i {
    }
}

/// The first state reported for `thread_id`.
fn find_state(states: &Vec<CollabAgentStateInfo>, thread_id: &str) -> (r: Option<usize>)
    ensures
        match r {
            Some(i) => i < states.len() && state_pos(states@, thread_id@) == i,
            None => state_pos(states@, thread_id@) == -1,
        },
{
    let mut i: usize = 0;
    while i < states.len()
        invariant
            i <= states.len(),
            forall|j: int| 0 <= j < i ==> states@[j].thread_id@ != thread_id@,
        decreases states.len() - i,
    {
        if text_eq(states[i].thread_id.as_str(), thread_id) {
            proof {
                lemma_state_pos_found(states@, thread_id@, i as int);
            }
            return Some(i);
        }
        i = i + 1;
    }
    proof {
        reveal(state_pos);
    }
    None
}

/// The part of `v` after its last '-', or all of it.
fn last_segment_chars(v: &Vec<char>) -> (r: Vec<char>)
    ensures
        r@ == last_segment(v@),
{
    let mut r: Vec<char> = Vec::new();
    for i in 0..v.len()
        invariant
            r@ == last_segment(v@.take(i as int)),
    {
        proof {
            assert(v@.take(i + 1).drop_last() == v@.take(i as int));
            assert(v@.take(i + 1).last() == v@[i as int]);
        }
        if v[i] == '-' {
            r = Vec::new();
            proof {
                assert(r@ =~= Seq::<char>::empty());
            }
        } else {
            r.push(v[i]);
        }
    }
    proof {
        assert(v@.take(v.len() as int) == v@);
    }
    r
}

impl ProjectionState {
    /// The position of the node of the active turn.
    fn active_turn_pos(&self) -> (r: Option<usize>)
        ensures
            match r {
                Some(i) => i < self.nodes.len() && self@.active_turn_node_id is Some
                    && node_pos(self@.nodes, self@.active_turn_node_id->0) == i && active_node(
                    self@,
                ) == Some(self@.nodes[i as int]),
                None => active_node(self@) is None,
            },
    {
        match &self.active_turn_node_id {
            Some(t) => self.find_node(t.as_str()),
            None => None,
        }
    }

    /// The node for the item `item_id`: the one already stored for it, a new
    /// one under the active turn, or the brain's id when there is no turn.
    fn ensure_item_node(
        &mut self,
        item_id: &str,
        title: &str,
        detail: &str,
        kind: SwarmNodeKind,
        complete: bool,
    ) -> (id: String)
        ensures
            (final(self)@, id@) == item_ensured(
                old(self)@,
                item_id@,
                title@,
                detail@,
                kind,
                complete,
            ),
    {
        match link_target(&self.item_nodes, item_id) {
            Some(existing) => {
                return existing;
            },
            None => {},
        }
        let parent_id = match &self.active_turn_node_id {
            Some(t) => t.clone(),
            None => {
                return "swarm-root".to_owned();
            },
        };
        let mut idv = lit("node-");
        extend_chars(&mut idv, &chars_of(item_id));
        let node_id = string_from(&idv);
        let turn_id = self.turn_of_node(parent_id.as_str());
        let ghost co0 = self@.child_order;
        let order = push_child_exec(&mut self.child_order, parent_id.as_str(), node_id.as_str());
        let node = SwarmNode {
            id: node_id.clone(),
            parent_id: Some(parent_id),
            kind,
            status: if complete {
                SwarmNodeStatus::Complete
            } else {
                SwarmNodeStatus::Running
            },
            title: title.to_owned(),
            subtitle: String::new(),
            detail: detail.to_owned(),
            model: None,
            reasoning: None,
            service_tier: None,
            thread_id: copy_opt(&self.root.thread_id),
            turn_id,
            long_context: false,
            order,
        };
        self.put_node_exec(node);
        put_link_exec(&mut self.item_nodes, item_id.to_owned(), node_id.clone());
        proof {
            let r = item_ensured(old(self)@, item_id@, title@, detail@, kind, complete);
            assert(self@ =~= r.0);
        }
        node_id
    }

    /// The node that agents sent by `sender_thread_id` hang under.
    fn resolve_agent_parent_id(&self, sender_thread_id: Option<&str>) -> (r: String)
        ensures
            r@ == agent_parent(
                self@,
                match sender_thread_id {
                    Some(s) => Some(s@),
                    None => None,
                },
            ),
    {
        match sender_thread_id {
            Some(s) => match link_target(&self.thread_nodes, s) {
                Some(n) => n,
                None => "swarm-root".to_owned(),
            },
            None => "swarm-root".to_owned(),
        }
    }

    /// Moves the node `node_id` to the end of the children of `new_parent_id`.
    fn reparent_agent_node(&mut self, node_id: &str, new_parent_id: &str)
        ensures
            final(self)@ == reparented(old(self)@, node_id@, new_parent_id@),
    {
        match self.find_node(node_id) {
            Some(i) => match &self.nodes[i].parent_id {
                Some(cur) => {
                    let cur = cur.clone();
                    remove_child_exec(&mut self.child_order, cur.as_str(), node_id);
                },
                None => {},
            },
            None => {},
        }
        let ghost co1 = child_views(self.child_order@);
        let new_order = push_child_exec(&mut self.child_order, new_parent_id, node_id);
        match self.find_node(node_id) {
            Some(i) => {
                let mut n = self.nodes[i].copy();
                n.parent_id = Some(new_parent_id.to_owned());
                n.order = new_order;
                self.set_node(i, n);
            },
            None => {},
        }
        proof {
            assert(self@ =~= reparented(old(self)@, node_id@, new_parent_id@));
        }
    }

    /// The title of the agent of `thread_id`, or a label made from the thread id.
    fn agent_label(&self, thread_id: &str) -> (r: String)
        ensures
            r@ == agent_label_of(self@, thread_id@),
    {
        match link_target(&self.thread_nodes, thread_id) {
            Some(nid) => match self.find_node(nid.as_str()) {
                Some(i) => {
                    return self.nodes[i].title.clone();
                },
                None => {},
            },
            None => {},
        }
        let seg = last_segment_chars(&chars_of(thread_id));
        let head = if seg.len() <= 4 {
            seg
        } else {
            slice_chars4(&seg)
        };
        let mut out = lit("Agent ");
        extend_chars(&mut out, &head);
        string_from(&out)
    }

    /// The node for the agent thread `thread_id`.
    fn ensure_agent_node(
        &mut self,
        thread_id: &str,
        label: &str,
        model: Option<&str>,
        reasoning_effort: Option<&str>,
        agent_states: &Vec<CollabAgentStateInfo>,
        sender_thread_id: Option<&str>,
    ) -> (id: String)
        ensures
            (final(self)@, id@) == agent_ensured(
                old(self)@,
                thread_id@,
                label@,
                match model {
                    Some(m) => Some(m@),
                    None => None,
                },
                match reasoning_effort {
                    Some(m) => Some(m@),
                    None => None,
                },
                agent_states@,
                match sender_thread_id {
                    Some(s) => Some(s@),
                    None => None,
                },
            ),
    {
        let ghost mv: Option<Seq<char>> = match model {
            Some(m) => Some(m@),
            None => None,
        };
        let ghost rv: Option<Seq<char>> = match reasoning_effort {
            Some(m) => Some(m@),
            None => None,
        };
        let ghost sv: Option<Seq<char>> = match sender_thread_id {
            Some(s) => Some(s@),
            None => None,
        };
        let parent_id = self.resolve_agent_parent_id(sender_thread_id);
        match link_target(&self.thread_nodes, thread_id) {
            Some(existing) => {
                let same_parent = match self.find_node(existing.as_str()) {
                    Some(i) => match &self.nodes[i].parent_id {
                        Some(cur) => text_eq(cur.as_str(), parent_id.as_str()),
                        None => false,
                    },
                    None => false,
                };
                if !same_parent {
                    self.reparent_agent_node(existing.as_str(), parent_id.as_str());
                }
                let ghost q = self@;
                match self.find_node(existing.as_str()) {
                    Some(i) => {
                        let mut n = self.nodes[i].copy();
                        n.title = label.to_owned();
                        match model {
                            Some(m) => {
                                n.model = Some(m.to_owned());
                            },
                            None => {},
                        }
                        match reasoning_effort {
                            Some(m) => {
                                n.reasoning = Some(m.to_owned());
                            },
                            None => {},
                        }
                        n.parent_id = Some(parent_id);
                        self.set_node(i, n);
                    },
                    None => {},
                }
                proof {
                    let r = agent_ensured(old(self)@, thread_id@, label@, mv, rv, agent_states@, sv);
                    assert(self@ =~= r.0);
                }
                existing
            },
            None => {
                let mut idv = lit("agent-");
                extend_chars(&mut idv, &chars_of(thread_id));
                let node_id = string_from(&idv);
                let turn_id = self.turn_of_node(parent_id.as_str());
                let order = push_child_exec(
                    &mut self.child_order,
                    parent_id.as_str(),
                    node_id.as_str(),
                );
                let mut node = SwarmNode {
                    id: node_id.clone(),
                    parent_id: Some(parent_id),
                    kind: SwarmNodeKind::Agent,
                    status: SwarmNodeStatus::Queued,
                    title: label.to_owned(),
                    subtitle: "Pending init".to_owned(),
                    detail: String::new(),
                    model: match model {
                        Some(m) => Some(m.to_owned()),
                        None => None,
                    },
                    reasoning: match reasoning_effort {
                        Some(m) => Some(m.to_owned()),
                        None => None,
                    },
                    service_tier: None,
                    thread_id: Some(thread_id.to_owned()),
                    turn_id,
                    long_context: false,
                    order,
                };
                match find_state(agent_states, thread_id) {
                    Some(k) => {
                        apply_agent_state_to_node(&mut node, &agent_states[k]);
                    },
                    None => {},
                }
                self.put_node_exec(node);
                put_link_exec(&mut self.thread_nodes, thread_id.to_owned(), node_id.clone());
                proof {
                    let r = agent_ensured(old(self)@, thread_id@, label@, mv, rv, agent_states@, sv);
                    assert(self@ =~= r.0);
                }
                node_id
            },
        }
    }

    /// Applies each reported agent state to the node of its thread.
    fn apply_agent_states(&mut self, agent_states: &Vec<CollabAgentStateInfo>)
        ensures
            final(self)@ == states_applied(old(self)@, agent_states@),
    {
        for k in 0..agent_states.len()
            invariant
                self@ == states_applied(old(self)@, agent_states@.take(k as int)),
        {
            let state = &agent_states[k];
            proof {
                assert(agent_states@.take(k + 1).drop_last() == agent_states@.take(k as int));
                assert(agent_states@.take(k + 1).last() == *state);
            }
            match link_target(&self.thread_nodes, state.thread_id.as_str()) {
                Some(nid) => match self.find_node(nid.as_str()) {
                    Some(i) => {
                        let mut n = self.nodes[i].copy();
                        apply_agent_state_to_node(&mut n, state);
                        self.set_node(i, n);
                    },
                    None => {},
                },
                None => {},
            }
        }
        proof {
            assert(agent_states@.take(agent_states.len() as int) == agent_states@);
        }
    }
}

fn slice_chars4(v: &Vec<char>) -> (r: Vec<char>)
    requires
        v.len() > 4,
    ensures
        r@ == v@.take(4),
{
    crate::text::slice_chars(v, 0, 4)
}

/// Complete when `complete`, otherwise running.
pub open spec fn done_or_running(complete: bool) -> SwarmNodeStatus {
    if complete {
        SwarmNodeStatus::Complete
    } else {
        SwarmNodeStatus::Running
    }
}

/// The projection after a runtime dialog message: the brain shows the message.
pub open spec fn dialog_applied(p: SwarmProjectionView, message: Option<String>) -> SwarmProjectionView {
    match message {
        Some(m) => SwarmProjectionView { root: SwarmNodeView { subtitle: m@, ..p.root }, ..p },
        None => p,
    }
}

/// The projection after the thread became ready.
pub open spec fn thread_ready_applied(p: SwarmProjectionView, thread_id: Seq<char>) -> SwarmProjectionView {
    let nodes = match active_node(p) {
        Some(n) => set_active(p, SwarmNodeView { thread_id: Some(thread_id), ..n }),
        None => p.nodes,
    };
    SwarmProjectionView {
        root: SwarmNodeView { thread_id: Some(thread_id), ..p.root },
        nodes: nodes,
        ..p
    }
}

/// The projection after the server started the turn.
pub open spec fn turn_started_applied(p: SwarmProjectionView, turn_id: Seq<char>) -> SwarmProjectionView {
    let nodes = match active_node(p) {
        Some(n) => set_active(
            p,
            SwarmNodeView {
                status: SwarmNodeStatus::Running,
                turn_id: Some(turn_id),
                subtitle: replace_all(
                    replace_all(n.subtitle, "Queued"@, "Running"@),
                    "Preparing"@,
                    "Running"@,
                ),
                ..n
            },
        ),
        None => p.nodes,
    };
    SwarmProjectionView {
        nodes: nodes,
        root: SwarmNodeView { status: SwarmNodeStatus::Running, subtitle: "Running"@, ..p.root },
        ..p
    }
}

/// The projection after a status message.
pub open spec fn status_applied(p: SwarmProjectionView, message: Seq<char>) -> SwarmProjectionView {
    let nodes = match active_node(p) {
        Some(n) => set_active(
            p,
            SwarmNodeView {
                status: if has_sub(message, "Thinking"@) {
                    SwarmNodeStatus::Waiting
                } else {
                    SwarmNodeStatus::Running
                },
                subtitle: message,
                ..n
            },
        ),
        None => p.nodes,
    };
    SwarmProjectionView {
        nodes: nodes,
        root: SwarmNodeView { status: SwarmNodeStatus::Running, subtitle: message, ..p.root },
        ..p
    }
}

/// The item node `nid` with new title, detail, status and, when given, subtitle.
pub open spec fn item_finished(
    q: SwarmProjectionView,
    nid: Seq<char>,
    title: Seq<char>,
    detail: Seq<char>,
    status: SwarmNodeStatus,
    subtitle: Option<Seq<char>>,
) -> SwarmProjectionView {
    match node_at(q.nodes, nid) {
        Some(n) => SwarmProjectionView {
            nodes: replace_node(
                q.nodes,
                nid,
                SwarmNodeView {
                    title: title,
                    detail: detail,
                    status: status,
                    subtitle: match subtitle {
                        Some(t) => t,
                        None => n.subtitle,
                    },
                    ..n
                },
            ),
            ..q
        },
        None => q,
    }
}

/// The projection after an activity of the turn started or finished.
pub open spec fn activity_applied(
    p: SwarmProjectionView,
    item_id: Seq<char>,
    title: Seq<char>,
    detail: Seq<char>,
    complete: bool,
) -> SwarmProjectionView {
    let (q, nid) = item_ensured(p, item_id, title, detail, SwarmNodeKind::Activity, complete);
    item_finished(q, nid, title, detail, done_or_running(complete), None)
}

/// The projection after a swarm tool call: its item node, the agent nodes
/// of its receivers and the reported agent states.
pub open spec fn collab_applied(
    p: SwarmProjectionView,
    item_id: Seq<char>,
    title: Seq<char>,
    detail: Seq<char>,
    tool: Seq<char>,
    sender: Seq<char>,
    receivers: Seq<String>,
    model: Option<Seq<char>>,
    reasoning: Option<Seq<char>>,
    states: Seq<CollabAgentStateInfo>,
    complete: bool,
) -> SwarmProjectionView {
    let (q, nid) = item_ensured(p, item_id, title, detail, SwarmNodeKind::Activity, complete);
    let q2 = item_finished(q, nid, title, detail, done_or_running(complete), Some(tool));
    let q3 = receivers_linked(q2, receivers, model, reasoning, states, sender);
    states_applied(q3, states)
}

/// The projection after a piece of the assistant's answer.
pub open spec fn assistant_delta_applied(p: SwarmProjectionView, delta: Seq<char>) -> SwarmProjectionView {
    let nodes = match active_node(p) {
        Some(n) => set_active(
            p,
            SwarmNodeView {
                status: SwarmNodeStatus::Running,
                detail: preview_after(n.detail, delta),
                ..n
            },
        ),
        None => p.nodes,
    };
    SwarmProjectionView {
        nodes: nodes,
        root: SwarmNodeView {
            subtitle: "Responding"@,
            detail: preview_after(p.root.detail, delta),
            ..p.root
        },
        ..p
    }
}

/// The projection after a piece of reasoning.
pub open spec fn reasoning_delta_applied(p: SwarmProjectionView, delta: Seq<char>) -> SwarmProjectionView {
    let nodes = match active_node(p) {
        Some(n) => set_active(
            p,
            SwarmNodeView {
                status: SwarmNodeStatus::Waiting,
                subtitle: preview_after(n.subtitle, delta),
                ..n
            },
        ),
        None => p.nodes,
    };
    SwarmProjectionView {
        nodes: nodes,
        root: SwarmNodeView { subtitle: "Thinking"@, ..p.root },
        ..p
    }
}

/// The projection after a command started.
pub open spec fn command_started_applied(
    p: SwarmProjectionView,
    item_id: Seq<char>,
    command: Seq<char>,
) -> SwarmProjectionView {
    let (q, nid) = item_ensured(p, item_id, "Command"@, command, SwarmNodeKind::Command, false);
    item_finished(q, nid, "$ Command"@, command, SwarmNodeStatus::Running, None)
}

/// The projection after output of a command.
pub open spec fn command_delta_applied(
    p: SwarmProjectionView,
    item_id: Seq<char>,
    delta: Seq<char>,
) -> SwarmProjectionView {
    match link_of(p.item_nodes, item_id) {
        Some(nid) => match node_at(p.nodes, nid) {
            Some(n) => SwarmProjectionView {
                nodes: replace_node(
                    p.nodes,
                    nid,
                    SwarmNodeView { subtitle: preview_after(n.subtitle, delta), ..n },
                ),
                ..p
            },
            None => p,
        },
        None => p,
    }
}

/// The projection after an item finished.
pub open spec fn item_done_applied(p: SwarmProjectionView, item_id: Seq<char>) -> SwarmProjectionView {
    match link_of(p.item_nodes, item_id) {
        Some(nid) => match node_at(p.nodes, nid) {
            Some(n) => SwarmProjectionView {
                nodes: replace_node(
                    p.nodes,
                    nid,
                    SwarmNodeView { status: SwarmNodeStatus::Complete, ..n },
                ),
                ..p
            },
            None => p,
        },
        None => p,
    }
}

/// The context usage line of the brain.
pub open spec fn context_line(context_tokens: u64, context_window: u64) -> Seq<char> {
    "Context "@ + token_count_text(context_tokens as nat) + " / "@ + token_count_text(
        context_window as nat,
    )
}

/// The projection after a token usage report.
pub open spec fn token_usage_applied(p: SwarmProjectionView, context_tokens: u64, context_window: u64) -> SwarmProjectionView {
    SwarmProjectionView {
        root: SwarmNodeView { detail: context_line(context_tokens, context_window), ..p.root },
        ..p
    }
}

/// The projection after the turn failed.
pub open spec fn error_applied(p: SwarmProjectionView, message: Seq<char>) -> SwarmProjectionView {
    let nodes = match active_node(p) {
        Some(n) => set_active(
            p,
            SwarmNodeView {
                status: SwarmNodeStatus::Failed,
                subtitle: "Failed"@,
                detail: message,
                ..n
            },
        ),
        None => p.nodes,
    };
    SwarmProjectionView {
        nodes: nodes,
        root: SwarmNodeView {
            status: SwarmNodeStatus::Failed,
            subtitle: "Failed"@,
            detail: message,
            ..p.root
        },
        ..p
    }
}

/// The projection after the turn ended: a turn that neither failed nor was
/// interrupted is complete, no turn is active and the brain stands by.
pub open spec fn completed_applied(p: SwarmProjectionView) -> SwarmProjectionView {
    let nodes = match active_node(p) {
        Some(n) => if n.status != SwarmNodeStatus::Failed && n.status
            != SwarmNodeStatus::Interrupted {
            set_active(
                p,
                SwarmNodeView { status: SwarmNodeStatus::Complete, subtitle: "Complete"@, ..n },
            )
        } else {
            p.nodes
        },
        None => p.nodes,
    };
    SwarmProjectionView {
        nodes: nodes,
        active_turn_node_id: None,
        root: SwarmNodeView {
            status: SwarmNodeStatus::Idle,
            subtitle: "Standing by"@,
            ..p.root
        },
        ..p
    }
}

/// The projection after one event of the chat stream.
pub open spec fn event_applied(p: SwarmProjectionView, e: ChatStreamEvent) -> SwarmProjectionView {
    match e {
        ChatStreamEvent::CodexRuntimeDialog { message } => dialog_applied(p, message),
        ChatStreamEvent::ThreadReady { thread_id } => thread_ready_applied(p, thread_id@),
        ChatStreamEvent::TurnStarted { turn_id } => turn_started_applied(p, turn_id@),
        ChatStreamEvent::Status { message } => status_applied(p, message@),
        ChatStreamEvent::Activity { item_id, title, detail, agent_label: _, complete } => {
            activity_applied(p, item_id@, title@, detail@, complete)
        },
        ChatStreamEvent::AgentThread { thread_id, label } => agent_ensured(
            p,
            thread_id@,
            label@,
            None,
            None,
            Seq::empty(),
            None,
        ).0,
        ChatStreamEvent::CollabTool {
            item_id,
            title,
            detail,
            agent_label: _,
            tool,
            sender_thread_id,
            receiver_thread_ids,
            model,
            reasoning_effort,
            agent_states,
            complete,
        } => collab_applied(
            p,
            item_id@,
            title@,
            detail@,
            tool@,
            sender_thread_id@,
            receiver_thread_ids@,
            opt_text(model),
            opt_text(reasoning_effort),
            agent_states@,
            complete,
        ),
        ChatStreamEvent::AssistantDelta { item_id: _, title: _, delta } => assistant_delta_applied(
            p,
            delta@,
        ),
        ChatStreamEvent::ReasoningDelta { item_id: _, title: _, delta } => reasoning_delta_applied(
            p,
            delta@,
        ),
        ChatStreamEvent::CommandStarted { item_id, title: _, command } => command_started_applied(
            p,
            item_id@,
            command@,
        ),
        ChatStreamEvent::CommandDelta { item_id, delta } => command_delta_applied(
            p,
            item_id@,
            delta@,
        ),
        ChatStreamEvent::ItemDone { item_id } => item_done_applied(p, item_id@),
        ChatStreamEvent::TokenUsage { context_tokens, session_total_tokens: _, context_window } => {
            token_usage_applied(p, context_tokens, context_window)
        },
        ChatStreamEvent::Error { message } => error_applied(p, message@),
        ChatStreamEvent::Completed => completed_applied(p),
    }
}

impl ProjectionState {
    /// Sets title, detail and status of the item node `node_id`, and its
    /// subtitle when one is given.
    fn finish_item_node(
        &mut self,
        node_id: &str,
        title: &str,
        detail: &str,
        status: SwarmNodeStatus,
        subtitle: Option<&str>,
    )
        ensures
            final(self)@ == item_finished(
                old(self)@,
                node_id@,
                title@,
                detail@,
                status,
                match subtitle {
                    Some(t) => Some(t@),
                    None => None,
                },
            ),
    {
        match self.find_node(node_id) {
            Some(i) => {
                let mut n = self.nodes[i].copy();
                n.title = title.to_owned();
                n.detail = detail.to_owned();
                n.status = status;
                match subtitle {
                    Some(t) => {
                        n.subtitle = t.to_owned();
                    },
                    None => {},
                }
                self.set_node(i, n);
            },
            None => {},
        }
    }

    /// Ensures an agent node for one receiving thread, labelled as it is known.
    fn link_receiver(
        &mut self,
        receiver: &String,
        model: &Option<String>,
        reasoning_effort: &Option<String>,
        agent_states: &Vec<CollabAgentStateInfo>,
        sender_thread_id: &String,
    )
        ensures
            final(self)@ == agent_ensured(
                old(self)@,
                receiver@,
                agent_label_of(old(self)@, receiver@),
                opt_text(*model),
                opt_text(*reasoning_effort),
                agent_states@,
                Some(sender_thread_id@),
            ).0,
    {
        let label = self.agent_label(receiver.as_str());
        let m = match model {
            Some(m) => Some(m.as_str()),
            None => None,
        };
        let e = match reasoning_effort {
            Some(e) => Some(e.as_str()),
            None => None,
        };
        self.ensure_agent_node(
            receiver.as_str(),
            label.as_str(),
            m,
            e,
            agent_states,
            Some(sender_thread_id.as_str()),
        );
    }

    /// Ensures an agent node for each receiving thread, labelled as it is known.
    fn link_receivers(
        &mut self,
        receivers: &Vec<String>,
        model: &Option<String>,
        reasoning_effort: &Option<String>,
        agent_states: &Vec<CollabAgentStateInfo>,
        sender_thread_id: &String,
    )
        ensures
            final(self)@ == receivers_linked(
                old(self)@,
                receivers@,
                opt_text(*model),
                opt_text(*reasoning_effort),
                agent_states@,
                sender_thread_id@,
            ),
    {
        let ghost m = opt_text(*model);
        let ghost e = opt_text(*reasoning_effort);
        for k in 0..receivers.len()
            invariant
                m == opt_text(*model),
                e == opt_text(*reasoning_effort),
                self@ == receivers_linked(
                    old(self)@,
                    receivers@.take(k as int),
                    m,
                    e,
                    agent_states@,
                    sender_thread_id@,
                ),
        {
            proof {
                let t = receivers@.take(k + 1);
                assert(t.drop_last() == receivers@.take(k as int));
                assert(t.last() == receivers@[k as int]);
            }
            self.link_receiver(&receivers[k], model, reasoning_effort, agent_states, sender_thread_id);
        }
        proof {
            assert(receivers@.take(receivers.len() as int) == receivers@);
        }
    }

    fn apply_dialog(&mut self, message: &Option<String>)
        ensures
            final(self)@ == dialog_applied(old(self)@, *message),
    {
        match message {
            Some(m) => {
                self.root.subtitle = m.clone();
            },
            None => {},
        }
        proof {
            assert(self@ =~= dialog_applied(old(self)@, *message));
        }
    }

    fn apply_thread_ready(&mut self, thread_id: &String)
        ensures
            final(self)@ == thread_ready_applied(old(self)@, thread_id@),
    {
        self.root.thread_id = Some(thread_id.clone());
        match self.active_turn_pos() {
            Some(i) => {
                let mut n = self.nodes[i].copy();
                n.thread_id = Some(thread_id.clone());
                self.set_node(i, n);
            },
            None => {},
        }
        proof {
            assert(self@ =~= thread_ready_applied(old(self)@, thread_id@));
        }
    }

    fn apply_turn_started(&mut self, turn_id: &String)
        ensures
            final(self)@ == turn_started_applied(old(self)@, turn_id@),
    {
        match self.active_turn_pos() {
            Some(i) => {
                let mut n = self.nodes[i].copy();
                n.status = SwarmNodeStatus::Running;
                n.turn_id = Some(turn_id.clone());
                proof {
                    reveal_strlit("Queued");
                    reveal_strlit("Preparing");
                }
                let once = replace_chars(
                    &chars_of(n.subtitle.as_str()),
                    &lit("Queued"),
                    &lit("Running"),
                );
                let twice = replace_chars(&once, &lit("Preparing"), &lit("Running"));
                n.subtitle = string_from(&twice);
                self.set_node(i, n);
            },
            None => {},
        }
        self.root.status = SwarmNodeStatus::Running;
        self.root.subtitle = "Running".to_owned();
        proof {
            assert(self@ =~= turn_started_applied(old(self)@, turn_id@));
        }
    }

    fn apply_status(&mut self, message: &String)
        ensures
            final(self)@ == status_applied(old(self)@, message@),
    {
        match self.active_turn_pos() {
            Some(i) => {
                let mut n = self.nodes[i].copy();
                n.status = if has_sub_exec(&chars_of(message.as_str()), &lit("Thinking")) {
                    SwarmNodeStatus::Waiting
                } else {
                    SwarmNodeStatus::Running
                };
                n.subtitle = message.clone();
                self.set_node(i, n);
            },
            None => {},
        }
        self.root.status = SwarmNodeStatus::Running;
        self.root.subtitle = message.clone();
        proof {
            assert(self@ =~= status_applied(old(self)@, message@));
        }
    }

    fn apply_activity(&mut self, item_id: &String, title: &String, detail: &String, complete: bool)
        ensures
            final(self)@ == activity_applied(old(self)@, item_id@, title@, detail@, complete),
    {
        let node_id = self.ensure_item_node(
            item_id.as_str(),
            title.as_str(),
            detail.as_str(),
            SwarmNodeKind::Activity,
            complete,
        );
        let status = if complete {
            SwarmNodeStatus::Complete
        } else {
            SwarmNodeStatus::Running
        };
        self.finish_item_node(node_id.as_str(), title.as_str(), detail.as_str(), status, None);
    }

    fn apply_agent_thread(&mut self, thread_id: &String, label: &String)
        ensures
            final(self)@ == agent_ensured(
                old(self)@,
                thread_id@,
                label@,
                None,
                None,
                Seq::empty(),
                None,
            ).0,
    {
        let empty: Vec<CollabAgentStateInfo> = Vec::new();
        proof {
            assert(empty@ =~= Seq::<CollabAgentStateInfo>::empty());
        }
        self.ensure_agent_node(thread_id.as_str(), label.as_str(), None, None, &empty, None);
    }

    fn apply_collab(
        &mut self,
        item_id: &String,
        title: &String,
        detail: &String,
        tool: &String,
        sender_thread_id: &String,
        receiver_thread_ids: &Vec<String>,
        model: &Option<String>,
        reasoning_effort: &Option<String>,
        agent_states: &Vec<CollabAgentStateInfo>,
        complete: bool,
    )
        ensures
            final(self)@ == collab_applied(
                old(self)@,
                item_id@,
                title@,
                detail@,
                tool@,
                sender_thread_id@,
                receiver_thread_ids@,
                opt_text(*model),
                opt_text(*reasoning_effort),
                agent_states@,
                complete,
            ),
    {
        let node_id = self.ensure_item_node(
            item_id.as_str(),
            title.as_str(),
            detail.as_str(),
            SwarmNodeKind::Activity,
            complete,
        );
        let status = if complete {
            SwarmNodeStatus::Complete
        } else {
            SwarmNodeStatus::Running
        };
        self.finish_item_node(
            node_id.as_str(),
            title.as_str(),
            detail.as_str(),
            status,
            Some(tool.as_str()),
        );
        self.link_receivers(receiver_thread_ids, model, reasoning_effort, agent_states, sender_thread_id);
        self.apply_agent_states(agent_states);
    }

    fn apply_assistant_delta(&mut self, delta: &String)
        ensures
            final(self)@ == assistant_delta_applied(old(self)@, delta@),
    {
        match self.active_turn_pos() {
            Some(i) => {
                let mut n = self.nodes[i].copy();
                n.status = SwarmNodeStatus::Running;
                append_preview(&mut n.detail, delta.as_str());
                self.set_node(i, n);
            },
            None => {},
        }
        self.root.subtitle = "Responding".to_owned();
        append_preview(&mut self.root.detail, delta.as_str());
        proof {
            assert(self@ =~= assistant_delta_applied(old(self)@, delta@));
        }
    }

    fn apply_reasoning_delta(&mut self, delta: &String)
        ensures
            final(self)@ == reasoning_delta_applied(old(self)@, delta@),
    {
        match self.active_turn_pos() {
            Some(i) => {
                let mut n = self.nodes[i].copy();
                n.status = SwarmNodeStatus::Waiting;
                append_preview(&mut n.subtitle, delta.as_str());
                self.set_node(i, n);
            },
            None => {},
        }
        self.root.subtitle = "Thinking".to_owned();
        proof {
            assert(self@ =~= reasoning_delta_applied(old(self)@, delta@));
        }
    }

    fn apply_command_started(&mut self, item_id: &String, command: &String)
        ensures
            final(self)@ == command_started_applied(old(self)@, item_id@, command@),
    {
        let node_id = self.ensure_item_node(
            item_id.as_str(),
            "Command",
            command.as_str(),
            SwarmNodeKind::Command,
            false,
        );
        self.finish_item_node(
            node_id.as_str(),
            "$ Command",
            command.as_str(),
            SwarmNodeStatus::Running,
            None,
        );
    }

    fn apply_command_delta(&mut self, item_id: &String, delta: &String)
        ensures
            final(self)@ == command_delta_applied(old(self)@, item_id@, delta@),
    {
        match link_target(&self.item_nodes, item_id.as_str()) {
            Some(nid) => match self.find_node(nid.as_str()) {
                Some(i) => {
                    let mut n = self.nodes[i].copy();
                    append_preview(&mut n.subtitle, delta.as_str());
                    self.set_node(i, n);
                },
                None => {},
            },
            None => {},
        }
    }

    fn apply_item_done(&mut self, item_id: &String)
        ensures
            final(self)@ == item_done_applied(old(self)@, item_id@),
    {
        match link_target(&self.item_nodes, item_id.as_str()) {
            Some(nid) => match self.find_node(nid.as_str()) {
                Some(i) => {
                    let mut n = self.nodes[i].copy();
                    n.status = SwarmNodeStatus::Complete;
                    self.set_node(i, n);
                },
                None => {},
            },
            None => {},
        }
    }

    fn apply_token_usage(&mut self, context_tokens: u64, context_window: u64)
        ensures
            final(self)@ == token_usage_applied(old(self)@, context_tokens, context_window),
    {
        let mut d = lit("Context ");
        let a = format_token_count(context_tokens);
        extend_chars(&mut d, &chars_of(a.as_str()));
        extend_chars(&mut d, &lit(" / "));
        let b = format_token_count(context_window);
        extend_chars(&mut d, &chars_of(b.as_str()));
        self.root.detail = string_from(&d);
        proof {
            assert(self@ =~= token_usage_applied(old(self)@, context_tokens, context_window));
        }
    }

    fn apply_error(&mut self, message: &String)
        ensures
            final(self)@ == error_applied(old(self)@, message@),
    {
        match self.active_turn_pos() {
            Some(i) => {
                let mut n = self.nodes[i].copy();
                n.status = SwarmNodeStatus::Failed;
                n.subtitle = "Failed".to_owned();
                n.detail = message.clone();
                self.set_node(i, n);
            },
            None => {},
        }
        self.root.status = SwarmNodeStatus::Failed;
        self.root.subtitle = "Failed".to_owned();
        self.root.detail = message.clone();
        proof {
            assert(self@ =~= error_applied(old(self)@, message@));
        }
    }

    fn apply_completed(&mut self)
        ensures
            final(self)@ == completed_applied(old(self)@),
    {
        match self.active_turn_pos() {
            Some(i) => {
                if self.nodes[i].status != SwarmNodeStatus::Failed && self.nodes[i].status
                    != SwarmNodeStatus::Interrupted {
                    let mut n = self.nodes[i].copy();
                    n.status = SwarmNodeStatus::Complete;
                    n.subtitle = "Complete".to_owned();
                    self.set_node(i, n);
                }
            },
            None => {},
        }
        self.active_turn_node_id = None;
        self.root.status = SwarmNodeStatus::Idle;
        self.root.subtitle = "Standing by".to_owned();
        proof {
            assert(self@ =~= completed_applied(old(self)@));
        }
    }

    /// Folds one event of the chat stream into the projection.
    fn apply_chat_event(&mut self, event: &ChatStreamEvent)
        ensures
            final(self)@ == event_applied(old(self)@, *event),
            well_formed(old(self)@) ==> well_formed(final(self)@),
    {
        proof {
            if well_formed(self@) {
                lemma_event_keeps_shape(self@, *event);
            }
        }
        match event {
            ChatStreamEvent::CodexRuntimeDialog { message } => self.apply_dialog(message),
            ChatStreamEvent::ThreadReady { thread_id } => self.apply_thread_ready(thread_id),
            ChatStreamEvent::TurnStarted { turn_id } => self.apply_turn_started(turn_id),
            ChatStreamEvent::Status { message } => self.apply_status(message),
            ChatStreamEvent::Activity { item_id, title, detail, agent_label: _, complete } => {
                self.apply_activity(item_id, title, detail, *complete)
            },
            ChatStreamEvent::AgentThread { thread_id, label } => {
                self.apply_agent_thread(thread_id, label)
            },
            ChatStreamEvent::CollabTool {
                item_id,
                title,
                detail,
                agent_label: _,
                tool,
                sender_thread_id,
                receiver_thread_ids,
                model,
                reasoning_effort,
                agent_states,
                complete,
            } => self.apply_collab(
                item_id,
                title,
                detail,
                tool,
                sender_thread_id,
                receiver_thread_ids,
                model,
                reasoning_effort,
                agent_states,
                *complete,
            ),
            ChatStreamEvent::AssistantDelta { item_id: _, title: _, delta } => {
                self.apply_assistant_delta(delta)
            },
            ChatStreamEvent::ReasoningDelta { item_id: _, title: _, delta } => {
                self.apply_reasoning_delta(delta)
            },
            ChatStreamEvent::CommandStarted { item_id, title: _, command } => {
                self.apply_command_started(item_id, command)
            },
            ChatStreamEvent::CommandDelta { item_id, delta } => {
                self.apply_command_delta(item_id, delta)
            },
            ChatStreamEvent::ItemDone { item_id } => self.apply_item_done(item_id),
            ChatStreamEvent::TokenUsage {
                context_tokens,
                session_total_tokens: _,
                context_window,
            } => self.apply_token_usage(*context_tokens, *context_window),
            ChatStreamEvent::Error { message } => self.apply_error(message),
            ChatStreamEvent::Completed => self.apply_completed(),
        }
    }
}

/// `a` comes before `b` in the order of `str`: character by character.
pub open spec fn text_lt(a: Seq<char>, b: Seq<char>) -> bool
    decreases a.len(),
{
    if a.len() == 0 {
        b.len() > 0
    } else if b.len() == 0 {
        false
    } else if a[0] != b[0] {
        a[0] < b[0]
    } else {
        text_lt(a.drop_first(), b.drop_first())
    }
}

/// Nodes are listed by their order among siblings, then by title.
pub open spec fn node_before(a: SwarmNodeView, b: SwarmNodeView) -> bool {
    a.order < b.order || (a.order == b.order && text_lt(a.title, b.title))
}

/// `x` inserted into the listing `t` after every node that does not come after it.
pub open spec fn insert_listed(t: Seq<SwarmNodeView>, x: SwarmNodeView) -> Seq<SwarmNodeView>
    decreases t.len(),
{
    if t.len() == 0 {
        seq![x]
    } else if node_before(x, t.last()) {
        insert_listed(t.drop_last(), x).push(t.last())
    } else {
        t.push(x)
    }
}

/// The nodes listed by order and title; nodes that tie keep their order
/// (a stable sort).
pub open spec fn listed(s: Seq<SwarmNodeView>) -> Seq<SwarmNodeView>
    decreases s.len(),
{
    if s.len() == 0 {
        s
    } else {
        insert_listed(listed(s.drop_last()), s.last())
    }
}

/// An agent node that is queued, running or waiting.
pub open spec fn is_active_agent(n: SwarmNodeView) -> bool {
    n.kind == SwarmNodeKind::Agent && active_status(n.status)
}

/// The nodes of `s` that satisfy `keep`, in order.
pub open spec fn kept(s: Seq<SwarmNodeView>, keep: spec_fn(SwarmNodeView) -> bool) -> Seq<
    SwarmNodeView,
>
    decreases s.len(),
{
    if s.len() == 0 {
        s
    } else if keep(s.last()) {
        kept(s.drop_last(), keep).push(s.last())
    } else {
        kept(s.drop_last(), keep)
    }
}

/// The node with id `id` is an active agent.
pub open spec fn active_agent_node(p: SwarmProjectionView, id: Seq<char>) -> bool {
    match node_at(p.nodes, id) {
        Some(n) => is_active_agent(n),
        None => false,
    }
}

/// An active agent that hangs under the brain, under nothing, or under a
/// node that is not an active agent.
pub open spec fn is_tree_root(p: SwarmProjectionView, n: SwarmNodeView) -> bool {
    is_active_agent(n) && match n.parent_id {
        None => true,
        Some(parent) => parent == root_id() || !active_agent_node(p, parent),
    }
}

/// The nodes that the ids in `ids` stand for, skipping unknown ids.
pub open spec fn nodes_of(p: SwarmProjectionView, ids: Seq<Seq<char>>) -> Seq<SwarmNodeView>
    decreases ids.len(),
{
    if ids.len() == 0 {
        Seq::empty()
    } else {
        let rest = nodes_of(p, ids.drop_last());
        match node_at(p.nodes, ids.last()) {
            Some(n) => rest.push(n),
            None => rest,
        }
    }
}

/// The active agents among the children of `id`, listed by order and title.
pub open spec fn child_agents(p: SwarmProjectionView, id: Seq<char>) -> Seq<SwarmNodeView> {
    listed(kept(nodes_of(p, children_of(p.child_order, id)), |n: SwarmNodeView| is_active_agent(n)))
}

/// The node with id `id`, or a queued agent placeholder titled with the id.
pub open spec fn tree_node_of(p: SwarmProjectionView, id: Seq<char>) -> SwarmNodeView {
    match node_at(p.nodes, id) {
        Some(n) => n,
        None => SwarmNodeView {
            id: id,
            parent_id: Some(root_id()),
            kind: SwarmNodeKind::Agent,
            status: SwarmNodeStatus::Queued,
            title: id,
            subtitle: Seq::empty(),
            detail: Seq::empty(),
            model: None,
            reasoning: None,
            service_tier: None,
            thread_id: None,
            turn_id: None,
            long_context: false,
            order: 0,
        },
    }
}

/// `t` is the agent tree of `id`, followed `depth` levels down.
pub open spec fn tree_matches(t: SwarmAgentTreeNode, p: SwarmProjectionView, id: Seq<char>, depth: nat) -> bool
    decreases depth,
{
    let n = tree_node_of(p, id);
    &&& t.id@ == n.id
    &&& t.title@ == n.title
    &&& t.subtitle@ == n.subtitle
    &&& t.detail@ == n.detail
    &&& t.status == n.status
    &&& opt_text(t.model) == n.model
    &&& opt_text(t.reasoning) == n.reasoning
    &&& if depth == 0 {
        t.children@.len() == 0
    } else {
        let kids = child_agents(p, id);
        &&& t.children@.len() == kids.len()
        &&& forall|i: int|
            0 <= i < kids.len() ==> tree_matches(#[trigger] t.children@[i], p, kids[i].id, (depth - 1) as nat)
    }
}

/// `ts` are the agent trees of the nodes `ns`, followed `depth` levels down.
pub open spec fn forest_matches(ts: Seq<SwarmAgentTreeNode>, p: SwarmProjectionView, ns: Seq<SwarmNodeView>, depth: nat) -> bool {
    &&& ts.len() == ns.len()
    &&& forall|i: int| 0 <= i < ns.len() ==> tree_matches(#[trigger] ts[i], p, ns[i].id, depth)
}

proof fn lemma_insert_listed_at(t: Seq<SwarmNodeView>, x: SwarmNodeView, j: int)
    requires
        0 <= j <= t.len(),
        forall|k: int| j <= k < t.len() ==> node_before(x, #[trigger] t[k]),
        j == 0 || !node_before(x, t[j - 1]),
    ensures
        insert_listed(t, x) == t.take(j).push(x) + t.skip(j),
    decreases t.len() - j,
{
    if j == t.len() {
        assert(t.take(j) == t);
        assert(t.skip(j).len() == 0);
        assert(t.take(j).push(x) + t.skip(j) == t.push(x));
        if t.len() > 0 {
            assert(!node_before(x, t.last()));
        }
    } else {
        let d = t.drop_last();
        assert(node_before(x, t.last()));
        assert forall|k: int| j <= k < d.len() implies node_before(x, #[trigger] d[k]) by {
            assert(d[k] == t[k]);
        }
        if j > 0 {
            assert(d[j - 1] == t[j - 1]);
        }
        lemma_insert_listed_at(d, x, j);
        assert(d.take(j) == t.take(j));
        assert(d.skip(j).push(t.last()) == t.skip(j));
        assert(t.take(j).push(x) + d.skip(j) + seq![t.last()] == t.take(j).push(x) + t.skip(j));
    }
}

/// `a` comes before `b` character by character.
fn text_lt_exec(a: &Vec<char>, b: &Vec<char>) -> (r: bool)
    ensures
        r == text_lt(a@, b@),
{
    let mut i: usize = 0;
    proof {
        assert(a@.skip(0) == a@);
        assert(b@.skip(0) == b@);
    }
    while i < a.len() && i < b.len() && a[i] == b[i]
        invariant
            i <= a.len(),
            i <= b.len(),
            text_lt(a@, b@) == text_lt(a@.skip(i as int), b@.skip(i as int)),
        decreases a.len() - i,
    {
        proof {
            assert(a@.skip(i as int).drop_first() == a@.skip(i + 1));
            assert(b@.skip(i as int).drop_first() == b@.skip(i + 1));
        }
        i = i + 1;
    }
    if i == a.len() {
        i < b.len()
    } else if i == b.len() {
        false
    } else {
        a[i] < b[i]
    }
}

/// Whether `a` is listed before `b`.
fn node_before_exec(a: &SwarmNode, b: &SwarmNode) -> (r: bool)
    ensures
        r == node_before(a@, b@),
{
    if a.order < b.order {
        true
    } else if a.order == b.order {
        text_lt_exec(&chars_of(a.title.as_str()), &chars_of(b.title.as_str()))
    } else {
        false
    }
}

/// The views of a sequence of nodes.
pub open spec fn node_views(s: Seq<SwarmNode>) -> Seq<SwarmNodeView> {
    s.map_values(|n: SwarmNode| n@)
}

/// The nodes listed by order and title.
fn list_nodes(v: Vec<SwarmNode>) -> (r: Vec<SwarmNode>)
    ensures
        node_views(r@) == listed(node_views(v@)),
{
    let mut out: Vec<SwarmNode> = Vec::new();
    let ghost src = node_views(v@);
    for i in 0..v.len()
        invariant
            src == node_views(v@),
            node_views(out@) == listed(src.take(i as int)),
    {
        let x = v[i].copy();
        let ghost t = node_views(out@);
        let mut j: usize = out.len();
        while j > 0 && node_before_exec(&x, &out[j - 1])
            invariant
                j <= out.len(),
                t == node_views(out@),
                forall|k: int| j <= k < out.len() ==> node_before(x@, #[trigger] t[k]),
            decreases j,
        {
            j = j - 1;
        }
        proof {
            lemma_insert_listed_at(t, x@, j as int);
            assert(src.take(i + 1).drop_last() == src.take(i as int));
            assert(src.take(i + 1).last() == x@);
        }
        out.insert(j, x);
        proof {
            assert(node_views(out@) =~= t.take(j as int).push(x@) + t.skip(j as int));
        }
    }
    proof {
        assert(src.take(v.len() as int) == src);
    }
    out
}

impl ProjectionState {
    /// The number of agents that are queued, running or waiting.
    fn active_agent_count(&self) -> (n: usize)
        ensures
            n == kept(self@.nodes, |x: SwarmNodeView| is_active_agent(x)).len(),
    {
        let ghost keep = |x: SwarmNodeView| is_active_agent(x);
        let mut n: usize = 0;
        for i in 0..self.nodes.len()
            invariant
                keep == (|x: SwarmNodeView| is_active_agent(x)),
                n == kept(self@.nodes.take(i as int), keep).len(),
                n <= i,
        {
            proof {
                assert(self@.nodes.take(i + 1).drop_last() == self@.nodes.take(i as int));
                assert(self@.nodes.take(i + 1).last() == self.nodes@[i as int]@);
            }
            if self.nodes[i].kind == SwarmNodeKind::Agent && is_active_agent_status(
                self.nodes[i].status,
            ) {
                n = n + 1;
            }
        }
        proof {
            assert(self@.nodes.take(self.nodes.len() as int) == self@.nodes);
        }
        n
    }

    /// Whether the node `node_id` is an active agent.
    fn is_active_agent_node(&self, node_id: &str) -> (b: bool)
        ensures
            b == active_agent_node(self@, node_id@),
    {
        match self.find_node(node_id) {
            Some(i) => self.nodes[i].kind == SwarmNodeKind::Agent && is_active_agent_status(
                self.nodes[i].status,
            ),
            None => false,
        }
    }

    /// The active agents among the children of `node_id`, listed.
    fn child_agent_nodes(&self, node_id: &str) -> (r: Vec<SwarmNode>)
        ensures
            node_views(r@) == child_agents(self@, node_id@),
    {
        let ghost keep = |x: SwarmNodeView| is_active_agent(x);
        let mut picked: Vec<SwarmNode> = Vec::new();
        match find_children(&self.child_order, node_id) {
            Some(c) => {
                let ghost ids = texts(self.child_order@[c as int].children@);
                let n = self.child_order[c].children.len();
                for k in 0..n
                    invariant
                        c < self.child_order.len(),
                        n == self.child_order@[c as int].children.len(),
                        ids == texts(self.child_order@[c as int].children@),
                        keep == (|x: SwarmNodeView| is_active_agent(x)),
                        node_views(picked@) == kept(nodes_of(self@, ids.take(k as int)), keep),
                {
                    let id = &self.child_order[c].children[k];
                    let ghost rest = nodes_of(self@, ids.take(k as int));
                    proof {
                        assert(ids.take(k + 1).drop_last() == ids.take(k as int));
                        assert(ids.take(k + 1).last() == id@);
                    }
                    match self.find_node(id.as_str()) {
                        Some(i) => {
                            let nd = &self.nodes[i];
                            proof {
                                assert(nodes_of(self@, ids.take(k + 1)) == rest.push(nd@));
                                assert(rest.push(nd@).drop_last() == rest);
                            }
                            if nd.kind == SwarmNodeKind::Agent && is_active_agent_status(nd.status) {
                                let ghost before = picked@;
                                picked.push(nd.copy());
                                proof {
                                    assert(node_views(picked@) =~= node_views(before).push(nd@));
                                }
                            }
                        },
                        None => {
                            proof {
                                assert(nodes_of(self@, ids.take(k + 1)) == rest);
                            }
                        },
                    }
                }
                proof {
                    assert(ids.take(n as int) == ids);
                }
            },
            None => {
                proof {
                    assert(node_views(picked@) =~= Seq::<SwarmNodeView>::empty());
                }
            },
        }
        list_nodes(picked)
    }

    /// The agent tree of `node_id`, followed `depth` levels down.
    fn build_agent_tree(&self, node_id: &str, depth: usize) -> (t: SwarmAgentTreeNode)
        ensures
            tree_matches(t, self@, node_id@, depth as nat),
        decreases depth,
    {
        let node = match self.find_node(node_id) {
            Some(i) => self.nodes[i].copy(),
            None => SwarmNode {
                id: node_id.to_owned(),
                parent_id: Some("swarm-root".to_owned()),
                kind: SwarmNodeKind::Agent,
                status: SwarmNodeStatus::Queued,
                title: node_id.to_owned(),
                subtitle: String::new(),
                detail: String::new(),
                model: None,
                reasoning: None,
                service_tier: None,
                thread_id: None,
                turn_id: None,
                long_context: false,
                order: 0,
            },
        };
        let mut children: Vec<SwarmAgentTreeNode> = Vec::new();
        if depth > 0 {
            let kids = self.child_agent_nodes(node_id);
            for k in 0..kids.len()
                invariant
                    depth > 0,
                    node_views(kids@) == child_agents(self@, node_id@),
                    children@.len() == k,
                    forall|m: int|
                        0 <= m < k ==> tree_matches(
                            #[trigger] children@[m],
                            self@,
                            node_views(kids@)[m].id,
                            (depth - 1) as nat,
                        ),
            {
                let child = self.build_agent_tree(kids[k].id.as_str(), depth - 1);
                children.push(child);
            }
        }
        let t = SwarmAgentTreeNode {
            id: node.id,
            title: node.title,
            subtitle: node.subtitle,
            detail: node.detail,
            status: node.status,
            model: node.model,
            reasoning: node.reasoning,
            children,
        };
        proof {
            assert(node@ == tree_node_of(self@, node_id@));
        }
        t
    }

    /// The trees of active agents: each active agent not under another active
    /// agent, listed by order and title, with the active agents under it.
    /// The trees are followed as many levels down as there are nodes.
    fn active_agent_tree(&self) -> (r: Vec<SwarmAgentTreeNode>)
        ensures
            forest_matches(
                r@,
                self@,
                listed(kept(self@.nodes, |n: SwarmNodeView| is_tree_root(self@, n))),
                self@.nodes.len(),
            ),
            well_formed(self@) ==> {
                &&& forest_ids(r@, self@.nodes.len()).no_duplicates()
                &&& forall|i: int| 0 <= i < r@.len() ==> tree_links(#[trigger] r@[i], self@, self@.nodes.len())
                &&& forall|y: Seq<char>| #[trigger] forest_ids(r@, self@.nodes.len()).contains(y)
                    ==> active_agent_node(self@, y)
            },
    {
        let ghost keep = |n: SwarmNodeView| is_tree_root(self@, n);
        let mut roots: Vec<SwarmNode> = Vec::new();
        for i in 0..self.nodes.len()
            invariant
                keep == (|n: SwarmNodeView| is_tree_root(self@, n)),
                node_views(roots@) == kept(self@.nodes.take(i as int), keep),
        {
            proof {
                assert(self@.nodes.take(i + 1).drop_last() == self@.nodes.take(i as int));
                assert(self@.nodes.take(i + 1).last() == self.nodes@[i as int]@);
            }
            let nd = &self.nodes[i];
            let is_root = if nd.kind == SwarmNodeKind::Agent && is_active_agent_status(nd.status) {
                match &nd.parent_id {
                    None => true,
                    Some(parent) => text_eq(parent.as_str(), "swarm-root") || !self.is_active_agent_node(
                        parent.as_str(),
                    ),
                }
            } else {
                false
            };
            if is_root {
                let ghost before = roots@;
                roots.push(nd.copy());
                proof {
                    assert(node_views(roots@) =~= node_views(before).push(nd@));
                }
            }
        }
        proof {
            assert(self@.nodes.take(self.nodes.len() as int) == self@.nodes);
        }
        let listed_roots = list_nodes(roots);
        let depth = self.nodes.len();
        let mut out: Vec<SwarmAgentTreeNode> = Vec::new();
        for k in 0..listed_roots.len()
            invariant
                depth == self@.nodes.len(),
                node_views(listed_roots@) == listed(kept(self@.nodes, keep)),
                out@.len() == k,
                forall|m: int|
                    0 <= m < k ==> tree_matches(
                        #[trigger] out@[m],
                        self@,
                        node_views(listed_roots@)[m].id,
                        depth as nat,
                    ),
        {
            let t = self.build_agent_tree(listed_roots[k].id.as_str(), depth);
            out.push(t);
        }
        proof {
            if well_formed(self@) {
                lemma_forest_shape(self@, out@, depth as nat);
            }
        }
        out
    }
}

/// What the canvas shows, before it is laid out: the brain followed by the
/// agents listed by order and title, an edge from the brain to each agent,
/// the first active agent, and the numbers of shown and of active nodes.
#[derive(Debug)]
pub struct SwarmSnapshotPlan {
    pub root_id: String,
    pub nodes: Vec<SwarmNode>,
    pub edges: Vec<SwarmEdge>,
    pub active_node_id: Option<String>,
    pub total_nodes: usize,
    pub active_nodes: usize,
}

/// The agent nodes of the projection, listed by order and title.
pub open spec fn canvas_agents(p: SwarmProjectionView) -> Seq<SwarmNodeView> {
    listed(kept(p.nodes, |n: SwarmNodeView| n.kind == SwarmNodeKind::Agent))
}

/// The id of the first active node of `s`.
pub open spec fn first_active(s: Seq<SwarmNodeView>) -> Option<Seq<char>>
    decreases s.len(),
{
    if s.len() == 0 {
        None
    } else if active_status(s[0].status) {
        Some(s[0].id)
    } else {
        first_active(s.drop_first())
    }
}

/// The number of active nodes in `s`.
pub open spec fn active_in(s: Seq<SwarmNodeView>) -> nat {
    kept(s, |n: SwarmNodeView| active_status(n.status)).len()
}

impl ProjectionState {
    /// The content of the canvas; the positions are left to the caller.
    fn snapshot_plan(&self) -> (r: SwarmSnapshotPlan)
        ensures
            r.root_id@ == root_id(),
            node_views(r.nodes@) == seq![self@.root] + canvas_agents(self@),
            r.edges@.len() == canvas_agents(self@).len(),
            forall|i: int|
                0 <= i < r.edges@.len() ==> (#[trigger] r.edges@[i]).from_id@ == root_id()
                    && r.edges@[i].to_id@ == canvas_agents(self@)[i].id,
            opt_text(r.active_node_id) == first_active(canvas_agents(self@)),
            r.total_nodes == 1 + canvas_agents(self@).len(),
            r.active_nodes == active_in(seq![self@.root] + canvas_agents(self@)),
    {
        let ghost is_agent = |n: SwarmNodeView| n.kind == SwarmNodeKind::Agent;
        let mut agents: Vec<SwarmNode> = Vec::new();
        for i in 0..self.nodes.len()
            invariant
                is_agent == (|n: SwarmNodeView| n.kind == SwarmNodeKind::Agent),
                node_views(agents@) == kept(self@.nodes.take(i as int), is_agent),
        {
            proof {
                assert(self@.nodes.take(i + 1).drop_last() == self@.nodes.take(i as int));
                assert(self@.nodes.take(i + 1).last() == self.nodes@[i as int]@);
            }
            if self.nodes[i].kind == SwarmNodeKind::Agent {
                let ghost before = agents@;
                agents.push(self.nodes[i].copy());
                proof {
                    assert(node_views(agents@) =~= node_views(before).push(self.nodes@[i as int]@));
                }
            }
        }
        proof {
            assert(self@.nodes.take(self.nodes.len() as int) == self@.nodes);
        }
        let agents = list_nodes(agents);
        let ghost ca = canvas_agents(self@);
        let ghost shown = seq![self@.root] + ca;
        let mut nodes: Vec<SwarmNode> = Vec::new();
        nodes.push(self.root.copy());
        for k in 0..agents.len()
            invariant
                ca == node_views(agents@),
                node_views(nodes@) == seq![self@.root] + ca.take(k as int),
        {
            let ghost before = nodes@;
            nodes.push(agents[k].copy());
            proof {
                assert(node_views(nodes@) =~= node_views(before).push(ca[k as int]));
                assert(ca.take(k + 1) == ca.take(k as int).push(ca[k as int]));
                assert(seq![self@.root] + ca.take(k as int).push(ca[k as int]) == (seq![self@.root]
                    + ca.take(k as int)).push(ca[k as int]));
            }
        }
        proof {
            assert(ca.take(agents.len() as int) == ca);
        }
        let ghost is_active = |n: SwarmNodeView| active_status(n.status);
        let mut edges: Vec<SwarmEdge> = Vec::new();
        let mut active_id: Option<String> = None;
        let mut active_nodes: usize = 0;
        proof {
            assert(shown.take(0) == Seq::<SwarmNodeView>::empty());
        }
        for k in 0..nodes.len()
            invariant
                is_active == (|n: SwarmNodeView| active_status(n.status)),
                shown == seq![self@.root] + ca,
                ca == canvas_agents(self@),
                node_views(nodes@) == shown,
                k == 0 ==> edges@.len() == 0,
                k > 0 ==> edges@.len() == k - 1,
                forall|i: int|
                    0 <= i < edges@.len() ==> (#[trigger] edges@[i]).from_id@ == root_id()
                        && edges@[i].to_id@ == ca[i].id,
                active_nodes == kept(shown.take(k as int), is_active).len(),
                active_nodes <= k,
                match active_id {
                    Some(a) => first_active(ca) == Some(a@),
                    None => forall|i: int|
                        0 <= i < k - 1 ==> !active_status(#[trigger] ca[i].status),
                },
        {
            proof {
                assert(shown.take(k + 1).drop_last() == shown.take(k as int));
                assert(shown.take(k + 1).last() == nodes@[k as int]@);
            }
            let active = is_active_agent_status(nodes[k].status);
            if active {
                active_nodes = active_nodes + 1;
            }
            if k > 0 {
                edges.push(SwarmEdge { from_id: "swarm-root".to_owned(), to_id: nodes[k].id.clone() });
                proof {
                    assert(node_views(nodes@)[k as int] == nodes@[k as int]@);
                    assert(shown.len() == 1 + ca.len());
                    assert(shown[k as int] == ca[k - 1]);
                    assert(nodes@[k as int]@ == ca[k - 1]);
                }
                if active && active_id.is_none() {
                    proof {
                        lemma_first_active_at(ca, k - 1);
                    }
                    active_id = Some(nodes[k].id.clone());
                }
            }
        }
        proof {
            assert(shown.take(nodes.len() as int) == shown);
            if active_id is None {
                lemma_first_active_none(ca);
            }
        }
        let total = nodes.len();
        SwarmSnapshotPlan {
            root_id: "swarm-root".to_owned(),
            nodes,
            edges,
            active_node_id: active_id,
            total_nodes: total,
            active_nodes,
        }
    }
}

/// The projection of the chat stream onto a tree of nodes. Its state always
/// has the shape of `well_formed`: the projection starts with it and every
/// step keeps it.
#[derive(Debug)]
pub struct SwarmProjection {
    state: ProjectionState,
}

impl View for SwarmProjection {
    type V = SwarmProjectionView;

    closed spec fn view(&self) -> SwarmProjectionView {
        self.state@
    }
}

impl SwarmProjection {
    #[verifier::type_invariant]
    spec fn shape(self) -> bool {
        well_formed(self.state@)
    }

    /// An empty projection: the brain standing by and no turns.
    pub fn new() -> (r: SwarmProjection)
        ensures
            r@ == initial_projection(),
            well_formed(r@),
    {
        SwarmProjection { state: ProjectionState::new() }
    }

    /// The number the next turn will get.
    pub fn next_turn_index(&self) -> (n: usize)
        ensures
            n == self@.next_turn_index,
            well_formed(self@),
    {
        proof {
            use_type_invariant(self);
        }
        self.state.next_turn_index()
    }

    /// Starts a new turn for `prompt` and returns the id of its node. The
    /// agents stay as they were: as many are active, and the agent tree
    /// matches the same forests; the brain's detail is at most 79 characters.
    pub fn start_turn(
        &mut self,
        prompt: &str,
        attachments: &[ChatAttachment],
        settings: &ChatTurnSettings,
    ) -> (turn_id: String)
        requires
            old(self)@.next_turn_index < usize::MAX,
        ensures
            final(self)@ == started(old(self)@, prompt@, attachments@.len(), *settings),
            turn_id@ == turn_id_for(old(self)@.next_turn_index),
            well_formed(final(self)@),
            kept(final(self)@.nodes, |x: SwarmNodeView| is_active_agent(x)).len() == kept(
                old(self)@.nodes,
                |x: SwarmNodeView| is_active_agent(x),
            ).len(),
            forall|r: Seq<SwarmAgentTreeNode>|
                #[trigger] forest_matches(r, final(self)@, tree_roots(final(self)@), final(self)@.nodes.len())
                    == forest_matches(r, old(self)@, tree_roots(old(self)@), old(self)@.nodes.len()),
            final(self)@.root.detail.len() <= 79,
    {
        proof {
            use_type_invariant(&*self);
        }
        let ghost before = self@;
        let mut st = ProjectionState::new();
        std::mem::swap(&mut st, &mut self.state);
        let turn_id = st.start_turn(prompt, attachments, settings);
        proof {
            law_start_turn_keeps_agents(before, prompt@, attachments@.len(), *settings, 0);
            assert forall|r: Seq<SwarmAgentTreeNode>|
                #[trigger] forest_matches(r, st@, tree_roots(st@), st@.nodes.len()) == forest_matches(
                    r,
                    before,
                    tree_roots(before),
                    before.nodes.len(),
                ) by {
                law_start_turn_keeps_tree(before, prompt@, attachments@.len(), *settings, r, 0);
            }
        }
        self.state = st;
        turn_id
    }

    /// Marks the active turn and the brain as interrupted.
    pub fn interrupt_active(&mut self)
        ensures
            final(self)@ == interrupted(old(self)@),
            well_formed(final(self)@),
    {
        proof {
            use_type_invariant(&*self);
        }
        let mut st = ProjectionState::new();
        std::mem::swap(&mut st, &mut self.state);
        st.interrupt_active();
        self.state = st;
    }

    /// Folds one event of the chat stream into the projection. The linked
    /// threads are those linked before and those the event names, and each
    /// has exactly one agent node.
    pub fn apply_chat_event(&mut self, event: &ChatStreamEvent)
        ensures
            final(self)@ == event_applied(old(self)@, *event),
            well_formed(final(self)@),
            forall|t: Seq<char>|
                #[trigger] has_key(final(self)@.thread_nodes, t) <==> (has_key(old(self)@.thread_nodes, t)
                    || received(*event, t)),
            one_agent_per_thread(final(self)@),
    {
        proof {
            use_type_invariant(&*self);
        }
        let ghost before = self@;
        let mut st = ProjectionState::new();
        std::mem::swap(&mut st, &mut self.state);
        st.apply_chat_event(event);
        proof {
            lemma_shape_one_agent_per_thread(st@);
            assert forall|t: Seq<char>|
                #[trigger] has_key(st@.thread_nodes, t) <==> (has_key(before.thread_nodes, t) || received(
                    *event,
                    t,
                )) by {
                law_threads_follow_events(before, *event, Seq::empty(), 0, arbitrary(), t);
            }
        }
        self.state = st;
    }

    /// The number of agents that are queued, running or waiting: as many as
    /// the active agents among the nodes of the snapshot.
    pub fn active_agent_count(&self) -> (n: usize)
        ensures
            n == kept(self@.nodes, |x: SwarmNodeView| is_active_agent(x)).len(),
            n == kept(seq![self@.root] + canvas_agents(self@), |x: SwarmNodeView| is_active_agent(x)).len(),
            well_formed(self@),
    {
        proof {
            use_type_invariant(self);
            law_snapshot_counts_active_agents(self@);
        }
        self.state.active_agent_count()
    }

    /// The trees of active agents: each active agent not under another active
    /// agent, listed by order and title, with the active agents under it,
    /// followed as many levels down as there are nodes. No id is shown
    /// twice, each child is shown under its parent, only active agents are
    /// shown; where no active agents form a cycle every active agent is
    /// shown, and agents on such a cycle never are.
    pub fn active_agent_tree(&self) -> (r: Vec<SwarmAgentTreeNode>)
        ensures
            forest_matches(r@, self@, tree_roots(self@), self@.nodes.len()),
            well_formed(self@),
            forest_ids(r@, self@.nodes.len()).no_duplicates(),
            forall|i: int| 0 <= i < r@.len() ==> tree_links(#[trigger] r@[i], self@, self@.nodes.len()),
            forall|y: Seq<char>| #[trigger] forest_ids(r@, self@.nodes.len()).contains(y)
                ==> active_agent_node(self@, y),
            forall|c: Seq<char>| #[trigger] on_active_cycle(self@, c)
                ==> !forest_ids(r@, self@.nodes.len()).contains(c),
            (forall|c: Seq<char>| active_agent_node(self@, c) ==> !#[trigger] on_active_cycle(self@, c))
                ==> {
                &&& forall|c: Seq<char>| #[trigger] forest_ids(r@, self@.nodes.len()).contains(c)
                    <==> active_agent_node(self@, c)
                &&& forest_ids(r@, self@.nodes.len()).len() == kept(
                    self@.nodes,
                    |x: SwarmNodeView| is_active_agent(x),
                ).len()
            },
    {
        proof {
            use_type_invariant(self);
        }
        let r = self.state.active_agent_tree();
        proof {
            let p = self@;
            lemma_forest_shape(p, r@, p.nodes.len());
            assert forall|c: Seq<char>| #[trigger] on_active_cycle(p, c) implies !forest_ids(
                r@,
                p.nodes.len(),
            ).contains(c) by {
                law_cycles_left_out(p, r@, c);
            }
            if forall|c: Seq<char>| active_agent_node(p, c) ==> !#[trigger] on_active_cycle(p, c) {
                law_agent_tree_complete(p, r@);
            }
        }
        r
    }

    /// The content of the canvas; the positions are left to the caller.
    pub fn snapshot_plan(&self) -> (r: SwarmSnapshotPlan)
        ensures
            r.root_id@ == root_id(),
            node_views(r.nodes@) == seq![self@.root] + canvas_agents(self@),
            r.edges@.len() == canvas_agents(self@).len(),
            forall|i: int|
                0 <= i < r.edges@.len() ==> (#[trigger] r.edges@[i]).from_id@ == root_id()
                    && r.edges@[i].to_id@ == canvas_agents(self@)[i].id,
            opt_text(r.active_node_id) == first_active(canvas_agents(self@)),
            r.total_nodes == 1 + canvas_agents(self@).len(),
            r.active_nodes == active_in(seq![self@.root] + canvas_agents(self@)),
            well_formed(self@),
    {
        proof {
            use_type_invariant(self);
        }
        self.state.snapshot_plan()
    }
}

proof fn lemma_first_active_at(s: Seq<SwarmNodeView>, k: int)
    requires
        0 <= k < s.len(),
        active_status(s[k].status),
        forall|i: int| 0 <= i < k ==> !active_status(#[trigger] s[i].status),
    ensures
        first_active(s) == Some(s[k].id),
    decreases k,
{
    if k > 0 {
        let d = s.drop_first();
        assert forall|i: int| 0 <= i < k - 1 implies !active_status(#[trigger] d[i].status) by {
            assert(d[i] == s[i + 1]);
        }
        lemma_first_active_at(d, k - 1);
    }
}

proof fn lemma_first_active_none(s: Seq<SwarmNodeView>)
    requires
        forall|i: int| 0 <= i < s.len() ==> !active_status(#[trigger] s[i].status),
    ensures
        first_active(s) is None,
    decreases s.len(),
{
    if s.len() > 0 {
        let d = s.drop_first();
        assert forall|i: int| 0 <= i < d.len() implies !active_status(#[trigger] d[i].status) by {
            assert(d[i] == s[i + 1]);
        }
        lemma_first_active_none(d);
    }
}


pub(crate) proof fn lemma_first_with_id(s: Seq<SwarmNodeView>, id: Seq<char>, k: int)
    requires
        0 <= k < s.len(),
        s[k].id == id,
    ensures
        exists|m: int|
            0 <= m <= k && s[m].id == id && (forall|j: int| 0 <= j < m ==> s[j].id != id),
    decreases k,
{
    if exists|j: int| 0 <= j < k && s[j].id == id {
        let j = choose|j: int| 0 <= j < k && s[j].id == id;
        lemma_first_with_id(s, id, j);
    } else {
        assert(forall|j: int| 0 <= j < k ==> s[j].id != id);
    }
}

pub(crate) proof fn lemma_node_pos_props(s: Seq<SwarmNodeView>, id: Seq<char>)
    ensures
        node_pos(s, id) >= 0 ==> node_pos(s, id) < s.len() && s[node_pos(s, id)].id == id
            && forall|j: int| 0 <= j < node_pos(s, id) ==> s[j].id != id,
        node_pos(s, id) < 0 ==> node_pos(s, id) == -1,
{
    reveal(node_pos);
    if exists|i: int| 0 <= i < s.len() && s[i].id == id {
        let k = choose|i: int| 0 <= i < s.len() && s[i].id == id;
        lemma_first_with_id(s, id, k);
    }
}

pub(crate) proof fn lemma_replace_found(s: Seq<SwarmNodeView>, id: Seq<char>, n: SwarmNodeView)
    requires
        node_pos(s, id) >= 0,
        n.id == id,
    ensures
        node_at(replace_node(s, id, n), id) == Some(n),
{
    lemma_node_pos_props(s, id);
    let i = node_pos(s, id);
    let t = s.update(i, n);
    assert forall|j: int| 0 <= j < i implies t[j].id != id by {
        assert(t[j] == s[j]);
    }
    lemma_node_pos_found(t, id, i);
}

/// Whether two projections have the same turns and turn numbering.
pub open spec fn same_turns(p: SwarmProjectionView, q: SwarmProjectionView) -> bool {
    p.turn_order == q.turn_order && p.next_turn_index == q.next_turn_index
}

proof fn lemma_states_keep_turns(p: SwarmProjectionView, states: Seq<CollabAgentStateInfo>)
    ensures
        same_turns(states_applied(p, states), p),
    decreases states.len(),
{
    if states.len() > 0 {
        lemma_states_keep_turns(p, states.drop_last());
    }
}

proof fn lemma_receivers_keep_turns(
    p: SwarmProjectionView,
    receivers: Seq<String>,
    model: Option<Seq<char>>,
    reasoning: Option<Seq<char>>,
    states: Seq<CollabAgentStateInfo>,
    sender: Seq<char>,
)
    ensures
        same_turns(receivers_linked(p, receivers, model, reasoning, states, sender), p),
    decreases receivers.len(),
{
    if receivers.len() > 0 {
        lemma_receivers_keep_turns(p, receivers.drop_last(), model, reasoning, states, sender);
    }
}

/// No stream event adds, drops or renumbers turns: only starting a turn
/// does.
pub proof fn law_events_keep_turns(p: SwarmProjectionView, e: ChatStreamEvent)
    ensures
        same_turns(event_applied(p, e), p),
{
    match e {
        ChatStreamEvent::CollabTool {
            item_id,
            title,
            detail,
            agent_label: _,
            tool,
            sender_thread_id,
            receiver_thread_ids,
            model,
            reasoning_effort,
            agent_states,
            complete,
        } => {
            let (q, nid) = item_ensured(
                p,
                item_id@,
                title@,
                detail@,
                SwarmNodeKind::Activity,
                complete,
            );
            let q2 = item_finished(q, nid, title@, detail@, done_or_running(complete), Some(tool@));
            lemma_receivers_keep_turns(
                q2,
                receiver_thread_ids@,
                opt_text(model),
                opt_text(reasoning_effort),
                agent_states@,
                sender_thread_id@,
            );
            let q3 = receivers_linked(
                q2,
                receiver_thread_ids@,
                opt_text(model),
                opt_text(reasoning_effort),
                agent_states@,
                sender_thread_id@,
            );
            lemma_states_keep_turns(q3, agent_states@);
        },
        _ => {},
    }
}

/// Starting a turn adds it last to the turns under the next number, makes
/// it the active turn, queued, and moves the numbering on by one.
pub proof fn law_start_turn_numbers_turns(
    p: SwarmProjectionView,
    prompt: Seq<char>,
    attachments: nat,
    settings: ChatTurnSettings,
)
    ensures
        ({
            let q = started(p, prompt, attachments, settings);
            let id = turn_id_for(p.next_turn_index);
            &&& q.turn_order == p.turn_order.push(id)
            &&& q.next_turn_index == p.next_turn_index + 1
            &&& q.active_turn_node_id == Some(id)
            &&& active_node(q) matches Some(n) && n.status == SwarmNodeStatus::Queued
                && n.kind == SwarmNodeKind::Turn
        }),
{
    let q = started(p, prompt, attachments, settings);
    let id = turn_id_for(p.next_turn_index);
    lemma_node_pos_props(p.nodes, id);
    let i = node_pos(p.nodes, id);
    if i >= 0 {
        assert forall|j: int| 0 <= j < i implies q.nodes[j].id != id by {
            assert(q.nodes[j] == p.nodes[j]);
        }
        lemma_node_pos_found(q.nodes, id, i);
    } else {
        lemma_node_pos_props(p.nodes, id);
        assert forall|j: int| 0 <= j < p.nodes.len() implies p.nodes[j].id != id by {
            if p.nodes[j].id == id {
                lemma_first_with_id(p.nodes, id, j);
                let m = choose|m: int|
                    0 <= m <= j && p.nodes[m].id == id && (forall|k: int|
                        0 <= k < m ==> p.nodes[k].id != id);
                lemma_node_pos_found(p.nodes, id, m);
            }
        }
        assert forall|j: int| 0 <= j < p.nodes.len() implies q.nodes[j].id != id by {
            assert(q.nodes[j] == p.nodes[j]);
        }
        lemma_node_pos_found(q.nodes, id, p.nodes.len() as int);
    }
}

/// A stream that ends leaves no turn active and the brain standing by;
/// the ended turn is complete unless it failed or was interrupted.
pub proof fn law_completion_ends_turn(p: SwarmProjectionView)
    ensures
        completed_applied(p).active_turn_node_id is None,
        completed_applied(p).root.status == SwarmNodeStatus::Idle,
        active_node(p) matches Some(n) ==> node_at(
            completed_applied(p).nodes,
            p.active_turn_node_id->0,
        ) == Some(
            if n.status == SwarmNodeStatus::Failed || n.status == SwarmNodeStatus::Interrupted {
                n
            } else {
                SwarmNodeView { status: SwarmNodeStatus::Complete, subtitle: "Complete"@, ..n }
            },
        ),
{
    if let Some(n) = active_node(p) {
        let t = p.active_turn_node_id->0;
        lemma_node_pos_props(p.nodes, t);
        if !(n.status == SwarmNodeStatus::Failed || n.status == SwarmNodeStatus::Interrupted) {
            lemma_replace_found(
                p.nodes,
                t,
                SwarmNodeView { status: SwarmNodeStatus::Complete, subtitle: "Complete"@, ..n },
            );
        }
    }
}

/// A turn the user interrupted stays interrupted when its stream then
/// ends.
pub proof fn law_interrupted_turn_stays_interrupted(p: SwarmProjectionView)
    requires
        active_node(p) is Some,
    ensures
        node_at(completed_applied(interrupted(p)).nodes, p.active_turn_node_id->0) matches Some(n)
            && n.status == SwarmNodeStatus::Interrupted,
{
    let t = p.active_turn_node_id->0;
    let n = active_node(p)->0;
    lemma_node_pos_props(p.nodes, t);
    let m = SwarmNodeView {
        status: SwarmNodeStatus::Interrupted,
        subtitle: "Interrupted by user"@,
        ..n
    };
    lemma_replace_found(p.nodes, t, m);
    law_completion_ends_turn(interrupted(p));
}

/// A turn that failed stays failed when its stream then ends.
pub proof fn law_failed_turn_stays_failed(p: SwarmProjectionView, message: Seq<char>)
    requires
        active_node(p) is Some,
    ensures
        node_at(completed_applied(error_applied(p, message)).nodes, p.active_turn_node_id->0) matches Some(
            n,
        ) && n.status == SwarmNodeStatus::Failed && n.detail == message,
{
    let t = p.active_turn_node_id->0;
    let n = active_node(p)->0;
    lemma_node_pos_props(p.nodes, t);
    let m = SwarmNodeView {
        status: SwarmNodeStatus::Failed,
        subtitle: "Failed"@,
        detail: message,
        ..n
    };
    lemma_replace_found(p.nodes, t, m);
    law_completion_ends_turn(error_applied(p, message));
}

/// Interrupting when no turn is active changes nothing.
pub proof fn law_interrupt_without_turn_is_noop(p: SwarmProjectionView)
    requires
        p.active_turn_node_id is None,
    ensures
        interrupted(p) == p,
{
}

pub(crate) proof fn lemma_kept_push(u: Seq<SwarmNodeView>, y: SwarmNodeView, f: spec_fn(SwarmNodeView) -> bool)
    ensures
        kept(u.push(y), f) == if f(y) {
            kept(u, f).push(y)
        } else {
            kept(u, f)
        },
{
    assert(u.push(y).drop_last() == u);
}

pub(crate) proof fn lemma_kept_insert_listed(t: Seq<SwarmNodeView>, x: SwarmNodeView, f: spec_fn(SwarmNodeView) -> bool)
    ensures
        kept(insert_listed(t, x), f).len() == kept(t, f).len() + if f(x) {
            1int
        } else {
            0int
        },
    decreases t.len(),
{
    if t.len() == 0 {
        lemma_kept_push(t, x, f);
        assert(seq![x] == t.push(x));
    } else if node_before(x, t.last()) {
        lemma_kept_insert_listed(t.drop_last(), x, f);
        lemma_kept_push(insert_listed(t.drop_last(), x), t.last(), f);
        lemma_kept_push(t.drop_last(), t.last(), f);
        assert(t.drop_last().push(t.last()) == t);
    } else {
        lemma_kept_push(t, x, f);
    }
}

pub(crate) proof fn lemma_kept_listed(s: Seq<SwarmNodeView>, f: spec_fn(SwarmNodeView) -> bool)
    ensures
        kept(listed(s), f).len() == kept(s, f).len(),
    decreases s.len(),
{
    if s.len() > 0 {
        lemma_kept_listed(s.drop_last(), f);
        lemma_kept_insert_listed(listed(s.drop_last()), s.last(), f);
    }
}

pub(crate) proof fn lemma_kept_kept(s: Seq<SwarmNodeView>, f: spec_fn(SwarmNodeView) -> bool, g: spec_fn(SwarmNodeView) -> bool)
    requires
        forall|x: SwarmNodeView| #[trigger] g(x) ==> f(x),
    ensures
        kept(kept(s, f), g) == kept(s, g),
    decreases s.len(),
{
    if s.len() > 0 {
        lemma_kept_kept(s.drop_last(), f, g);
        if f(s.last()) {
            lemma_kept_push(kept(s.drop_last(), f), s.last(), g);
        }
    }
}

/// The canvas shows every active agent: the active agents among the nodes
/// of the snapshot are as many as `active_agent_count` counts, besides the
/// brain when it is one; on a projection of the shape that every reachable
/// projection has, the brain is none, and the two counts are equal.
pub proof fn law_snapshot_counts_active_agents(p: SwarmProjectionView)
    ensures
        kept(seq![p.root] + canvas_agents(p), |x: SwarmNodeView| is_active_agent(x)).len() == kept(
            p.nodes,
            |x: SwarmNodeView| is_active_agent(x),
        ).len() + if is_active_agent(p.root) {
            1int
        } else {
            0int
        },
        well_formed(p) ==> kept(seq![p.root] + canvas_agents(p), |x: SwarmNodeView| is_active_agent(x)).len()
            == kept(p.nodes, |x: SwarmNodeView| is_active_agent(x)).len(),
{
    let f = |x: SwarmNodeView| is_active_agent(x);
    let agent = |n: SwarmNodeView| n.kind == SwarmNodeKind::Agent;
    let agents = kept(p.nodes, agent);
    lemma_kept_listed(agents, f);
    lemma_kept_kept(p.nodes, agent, f);
    let s = seq![p.root] + listed(agents);
    assert forall|k: int| 0 <= k <= s.len() implies kept(s.take(k), f).len() == (if k > 0 && f(p.root) {
        1int
    } else {
        0int
    }) + kept(listed(agents).take(if k > 0 {
        k - 1
    } else {
        0
    }), f).len() by {
        lemma_kept_prefix(s, listed(agents), p.root, k, f);
    }
    assert(s.take(s.len() as int) == s);
    assert(listed(agents).take(listed(agents).len() as int) == listed(agents));
}

proof fn lemma_kept_prefix(
    s: Seq<SwarmNodeView>,
    t: Seq<SwarmNodeView>,
    r: SwarmNodeView,
    k: int,
    f: spec_fn(SwarmNodeView) -> bool,
)
    requires
        s == seq![r] + t,
        0 <= k <= s.len(),
    ensures
        kept(s.take(k), f).len() == (if k > 0 && f(r) {
            1int
        } else {
            0int
        }) + kept(t.take(if k > 0 {
            k - 1
        } else {
            0
        }), f).len(),
    decreases k,
{
    if k == 0 {
        assert(s.take(0).len() == 0);
        assert(t.take(0).len() == 0);
    } else if k == 1 {
        assert(s.take(1) == seq![r]);
        assert(seq![r] == Seq::<SwarmNodeView>::empty().push(r));
        lemma_kept_push(Seq::<SwarmNodeView>::empty(), r, f);
        assert(t.take(0).len() == 0);
    } else {
        lemma_kept_prefix(s, t, r, k - 1, f);
        assert(s.take(k) == s.take(k - 1).push(s[k - 1]));
        lemma_kept_push(s.take(k - 1), s[k - 1], f);
        assert(t.take(k - 1) == t.take(k - 2).push(t[k - 2]));
        lemma_kept_push(t.take(k - 2), t[k - 2], f);
        assert(s[k - 1] == t[k - 2]);
    }
}

proof fn lemma_states_keep_root(p: SwarmProjectionView, states: Seq<CollabAgentStateInfo>)
    ensures
        states_applied(p, states).root == p.root,
    decreases states.len(),
{
    if states.len() > 0 {
        lemma_states_keep_root(p, states.drop_last());
    }
}

proof fn lemma_receivers_keep_root(
    p: SwarmProjectionView,
    receivers: Seq<String>,
    model: Option<Seq<char>>,
    reasoning: Option<Seq<char>>,
    states: Seq<CollabAgentStateInfo>,
    sender: Seq<char>,
)
    ensures
        receivers_linked(p, receivers, model, reasoning, states, sender).root == p.root,
    decreases receivers.len(),
{
    if receivers.len() > 0 {
        lemma_receivers_keep_root(p, receivers.drop_last(), model, reasoning, states, sender);
    }
}

proof fn lemma_event_keeps_root_kind(p: SwarmProjectionView, e: ChatStreamEvent)
    ensures
        event_applied(p, e).root.kind == p.root.kind,
{
    match e {
        ChatStreamEvent::CollabTool {
            item_id,
            title,
            detail,
            agent_label: _,
            tool,
            sender_thread_id,
            receiver_thread_ids,
            model,
            reasoning_effort,
            agent_states,
            complete,
        } => {
            let (q, nid) = item_ensured(
                p,
                item_id@,
                title@,
                detail@,
                SwarmNodeKind::Activity,
                complete,
            );
            let q2 = item_finished(q, nid, title@, detail@, done_or_running(complete), Some(tool@));
            lemma_receivers_keep_root(
                q2,
                receiver_thread_ids@,
                opt_text(model),
                opt_text(reasoning_effort),
                agent_states@,
                sender_thread_id@,
            );
            let q3 = receivers_linked(
                q2,
                receiver_thread_ids@,
                opt_text(model),
                opt_text(reasoning_effort),
                agent_states@,
                sender_thread_id@,
            );
            lemma_states_keep_root(q3, agent_states@);
        },
        _ => {},
    }
}

pub(crate) proof fn lemma_kept_update(s: Seq<SwarmNodeView>, i: int, x: SwarmNodeView, f: spec_fn(SwarmNodeView) -> bool)
    requires
        0 <= i < s.len(),
        f(s[i]) == f(x),
    ensures
        kept(s.update(i, x), f).len() == kept(s, f).len(),
    decreases s.len(),
{
    let t = s.update(i, x);
    if i == s.len() - 1 {
        assert(t.drop_last() == s.drop_last());
    } else {
        lemma_kept_update(s.drop_last(), i, x, f);
        assert(t.drop_last() == s.drop_last().update(i, x));
    }
}

/// Starting a turn leaves the agents alone: on a projection of the shape
/// that every reachable projection has, the active agents are as many as
/// before, the brain's detail is at most 79 characters (78 and an ellipsis
/// when cut), and the new turn's id is that of no other turn number.
pub proof fn law_start_turn_keeps_agents(
    p: SwarmProjectionView,
    prompt: Seq<char>,
    attachments: nat,
    settings: ChatTurnSettings,
    other: nat,
)
    requires
        well_formed(p),
    ensures
        ({
            let q = started(p, prompt, attachments, settings);
            &&& kept(q.nodes, |x: SwarmNodeView| is_active_agent(x)).len() == kept(
                p.nodes,
                |x: SwarmNodeView| is_active_agent(x),
            ).len()
            &&& q.root.detail.len() <= 79
            &&& other != p.next_turn_index ==> turn_id_for(other) != turn_id_for(p.next_turn_index)
        }),
{
    crate::swarm_shape::lemma_turn_id_not_agent(p);
    let f = |x: SwarmNodeView| is_active_agent(x);
    let id = turn_id_for(p.next_turn_index);
    let q = started(p, prompt, attachments, settings);
    lemma_node_pos_props(p.nodes, id);
    let i = node_pos(p.nodes, id);
    let node = q.nodes[if i >= 0 {
        i
    } else {
        p.nodes.len() as int
    }];
    if i >= 0 {
        lemma_kept_update(p.nodes, i, node, f);
    } else {
        lemma_kept_push(p.nodes, node, f);
    }
    if other != p.next_turn_index {
        crate::forms::lemma_decimal_digits(other);
        crate::forms::lemma_decimal_digits(p.next_turn_index);
        if turn_id_for(other) == id {
            let k = "turn-local-"@.len() as int;
            assert(turn_id_for(other).skip(k) == decimal(other));
            assert(id.skip(k) == decimal(p.next_turn_index));
        }
    }
}

pub(crate) proof fn lemma_insert_listed_contains(t: Seq<SwarmNodeView>, x: SwarmNodeView, y: SwarmNodeView)
    ensures
        insert_listed(t, x).contains(y) <==> (t.contains(y) || y == x),
    decreases t.len(),
{
    if t.len() == 0 {
        assert(seq![x][0] == x);
    } else if node_before(x, t.last()) {
        let d = t.drop_last();
        lemma_insert_listed_contains(d, x, y);
        let u = insert_listed(d, x);
        assert(t == d.push(t.last()));
        if u.push(t.last()).contains(y) {
            let k = choose|k: int| 0 <= k < u.push(t.last()).len() && u.push(t.last())[k] == y;
            if k < u.len() {
                assert(u[k] == y);
            }
        }
        if u.contains(y) {
            let k = choose|k: int| 0 <= k < u.len() && u[k] == y;
            assert(u.push(t.last())[k] == y);
        }
        if y == t.last() {
            assert(u.push(t.last())[u.len() as int] == y);
        }
        if t.contains(y) {
            let k = choose|k: int| 0 <= k < t.len() && t[k] == y;
            if k < d.len() {
                assert(d[k] == y);
            }
        }
        if d.contains(y) {
            let k = choose|k: int| 0 <= k < d.len() && d[k] == y;
            assert(t[k] == y);
        }
    } else {
        if t.push(x).contains(y) {
            let k = choose|k: int| 0 <= k < t.push(x).len() && t.push(x)[k] == y;
            if k < t.len() {
                assert(t[k] == y);
            }
        }
        if t.contains(y) {
            let k = choose|k: int| 0 <= k < t.len() && t[k] == y;
            assert(t.push(x)[k] == y);
        }
        assert(t.push(x)[t.len() as int] == x);
    }
}

pub(crate) proof fn lemma_listed_contains(s: Seq<SwarmNodeView>, y: SwarmNodeView)
    ensures
        listed(s).contains(y) <==> s.contains(y),
    decreases s.len(),
{
    if s.len() > 0 {
        let d = s.drop_last();
        lemma_listed_contains(d, y);
        lemma_insert_listed_contains(listed(d), s.last(), y);
        assert(s == d.push(s.last()));
        if s.contains(y) {
            let k = choose|k: int| 0 <= k < s.len() && s[k] == y;
            if k < d.len() {
                assert(d[k] == y);
            }
        }
        if d.contains(y) {
            let k = choose|k: int| 0 <= k < d.len() && d[k] == y;
            assert(s[k] == y);
        }
    }
}

pub(crate) proof fn lemma_kept_contains(s: Seq<SwarmNodeView>, f: spec_fn(SwarmNodeView) -> bool, y: SwarmNodeView)
    ensures
        kept(s, f).contains(y) <==> (s.contains(y) && f(y)),
    decreases s.len(),
{
    if s.len() > 0 {
        let d = s.drop_last();
        lemma_kept_contains(d, f, y);
        let u = kept(d, f);
        assert(s == d.push(s.last()));
        if f(s.last()) {
            if u.push(s.last()).contains(y) {
                let k = choose|k: int| 0 <= k < u.push(s.last()).len() && u.push(s.last())[k] == y;
                if k < u.len() {
                    assert(u[k] == y);
                }
            }
            if u.contains(y) {
                let k = choose|k: int| 0 <= k < u.len() && u[k] == y;
                assert(u.push(s.last())[k] == y);
            }
            assert(u.push(s.last())[u.len() as int] == s.last());
        }
        if s.contains(y) {
            let k = choose|k: int| 0 <= k < s.len() && s[k] == y;
            if k < d.len() {
                assert(d[k] == y);
            }
        }
        if d.contains(y) {
            let k = choose|k: int| 0 <= k < d.len() && d[k] == y;
            assert(s[k] == y);
        }
    }
}

pub(crate) proof fn lemma_nodes_of_contains(p: SwarmProjectionView, ids: Seq<Seq<char>>, y: SwarmNodeView)
    ensures
        nodes_of(p, ids).contains(y) ==> ids.contains(y.id) && node_at(p.nodes, y.id) == Some(y),
    decreases ids.len(),
{
    if ids.len() > 0 {
        let d = ids.drop_last();
        lemma_nodes_of_contains(p, d, y);
        let rest = nodes_of(p, d);
        lemma_node_pos_props(p.nodes, ids.last());
        if nodes_of(p, ids).contains(y) {
            let k = choose|k: int| 0 <= k < nodes_of(p, ids).len() && nodes_of(p, ids)[k] == y;
            if k < rest.len() {
                assert(rest[k] == y);
                let m = choose|m: int| 0 <= m < d.len() && d[m] == y.id;
                assert(ids[m] == y.id);
            } else {
                assert(node_at(p.nodes, ids.last()) == Some(y));
                assert(ids[ids.len() - 1] == y.id);
            }
        }
    }
}

/// The agent tree, level by level: its roots are stored active agents that
/// hang under the brain, under nothing or under a node that is not an
/// active agent; the children shown under a node are stored active agents
/// listed under it.
pub proof fn law_agent_tree_levels(p: SwarmProjectionView, id: Seq<char>, y: SwarmNodeView)
    ensures
        listed(kept(p.nodes, |n: SwarmNodeView| is_tree_root(p, n))).contains(y) ==> {
            &&& p.nodes.contains(y)
            &&& is_active_agent(y)
            &&& match y.parent_id {
                None => true,
                Some(parent) => parent == root_id() || !active_agent_node(p, parent),
            }
        },
        child_agents(p, id).contains(y) ==> {
            &&& is_active_agent(y)
            &&& node_at(p.nodes, y.id) == Some(y)
            &&& children_of(p.child_order, id).contains(y.id)
        },
{
    let r = |n: SwarmNodeView| is_tree_root(p, n);
    let roots = kept(p.nodes, r);
    lemma_listed_contains(roots, y);
    lemma_kept_contains(p.nodes, r, y);
    let f = |n: SwarmNodeView| is_active_agent(n);
    let ids = children_of(p.child_order, id);
    let ks = kept(nodes_of(p, ids), f);
    lemma_listed_contains(ks, y);
    lemma_kept_contains(nodes_of(p, ids), f, y);
    lemma_nodes_of_contains(p, ids, y);
}

proof fn lemma_text_lt_order(a: Seq<char>, b: Seq<char>, c: Seq<char>)
    ensures
        !(text_lt(a, b) && text_lt(b, a)),
        text_lt(a, b) && text_lt(b, c) ==> text_lt(a, c),
    decreases a.len(),
{
    if a.len() > 0 && b.len() > 0 && c.len() > 0 {
        lemma_text_lt_order(a.drop_first(), b.drop_first(), c.drop_first());
    }
    if a.len() > 0 && b.len() > 0 {
        lemma_text_lt_order(a.drop_first(), b.drop_first(), b.drop_first());
    }
}

proof fn lemma_text_lt_total(a: Seq<char>, b: Seq<char>)
    requires
        a != b,
    ensures
        text_lt(a, b) || text_lt(b, a),
    decreases a.len(),
{
    if a.len() == 0 {
        if b.len() == 0 {
            assert(a =~= b);
        }
    } else if b.len() == 0 {
    } else if a[0] != b[0] {
    } else {
        assert(a.drop_first() != b.drop_first()) by {
            if a.drop_first() == b.drop_first() {
                assert(a =~= seq![a[0]] + a.drop_first());
                assert(b =~= seq![b[0]] + b.drop_first());
            }
        }
        lemma_text_lt_total(a.drop_first(), b.drop_first());
    }
}

proof fn lemma_node_before_order(a: SwarmNodeView, b: SwarmNodeView, c: SwarmNodeView)
    ensures
        !(node_before(a, b) && node_before(b, a)),
        node_before(a, b) && node_before(b, c) ==> node_before(a, c),
        !node_before(a, b) ==> node_before(b, a) || (a.order == b.order && a.title == b.title),
{
    lemma_text_lt_order(a.title, b.title, c.title);
    if a.title != b.title {
        lemma_text_lt_total(a.title, b.title);
    }
}

/// Whether no node of the listing comes before one listed earlier.
pub open spec fn listing_sorted(t: Seq<SwarmNodeView>) -> bool {
    forall|i: int, j: int| 0 <= i < j < t.len() ==> !node_before(#[trigger] t[j], #[trigger] t[i])
}

proof fn lemma_insert_listed_sorted(t: Seq<SwarmNodeView>, x: SwarmNodeView)
    requires
        listing_sorted(t),
    ensures
        listing_sorted(insert_listed(t, x)),
    decreases t.len(),
{
    if t.len() == 0 {
    } else if node_before(x, t.last()) {
        let d = t.drop_last();
        let l = t.last();
        assert forall|i: int, j: int| 0 <= i < j < d.len() implies !node_before(#[trigger] d[j], #[trigger] d[i]) by {
            assert(d[j] == t[j] && d[i] == t[i]);
        }
        lemma_insert_listed_sorted(d, x);
        let u = insert_listed(d, x);
        let v = u.push(l);
        assert forall|i: int, j: int| 0 <= i < j < v.len() implies !node_before(#[trigger] v[j], #[trigger] v[i]) by {
            if j == v.len() - 1 {
                assert(v[j] == l);
                assert(v[i] == u[i]);
                lemma_insert_listed_contains(d, x, u[i]);
                assert(u.contains(u[i]));
                if u[i] == x {
                    lemma_node_before_order(x, l, l);
                } else {
                    let k = choose|k: int| 0 <= k < d.len() && d[k] == u[i];
                    assert(t[k] == u[i]);
                    assert(t[t.len() - 1] == l);
                }
            } else {
                assert(v[i] == u[i] && v[j] == u[j]);
            }
        }
    } else {
        let l = t.last();
        let v = t.push(x);
        assert forall|i: int, j: int| 0 <= i < j < v.len() implies !node_before(#[trigger] v[j], #[trigger] v[i]) by {
            if j == v.len() - 1 {
                assert(v[j] == x && v[i] == t[i]);
                if i < t.len() - 1 {
                    assert(!node_before(l, t[i]));
                }
                lemma_node_before_order(x, t[i], l);
                lemma_node_before_order(t[i], l, l);
                lemma_node_before_order(l, t[i], l);
                lemma_node_before_order(x, l, t[i]);
            } else {
                assert(v[i] == t[i] && v[j] == t[j]);
            }
        }
    }
}

proof fn lemma_listed_sorted(s: Seq<SwarmNodeView>)
    ensures
        listing_sorted(listed(s)),
    decreases s.len(),
{
    if s.len() > 0 {
        lemma_listed_sorted(s.drop_last());
        lemma_insert_listed_sorted(listed(s.drop_last()), s.last());
    }
}

/// The roots of the agent tree and the children shown under any node are
/// listed by order and then title: none comes before one listed earlier.
pub proof fn law_agent_tree_sorted(p: SwarmProjectionView, id: Seq<char>)
    ensures
        listing_sorted(listed(kept(p.nodes, |n: SwarmNodeView| is_tree_root(p, n)))),
        listing_sorted(child_agents(p, id)),
{
    lemma_listed_sorted(kept(p.nodes, |n: SwarmNodeView| is_tree_root(p, n)));
    lemma_listed_sorted(
        kept(nodes_of(p, children_of(p.child_order, id)), |n: SwarmNodeView| is_active_agent(n)),
    );
}

/// The brain stays the brain: no start, interruption or stream event
/// changes the kind of the root node, which starts as the brain; so it is
/// never counted among the agents.
pub proof fn law_root_stays_brain(
    p: SwarmProjectionView,
    e: ChatStreamEvent,
    prompt: Seq<char>,
    n_att: nat,
    settings: ChatTurnSettings,
)
    ensures
        initial_projection().root.kind == SwarmNodeKind::Brain,
        started(p, prompt, n_att, settings).root.kind == p.root.kind,
        interrupted(p).root.kind == p.root.kind,
        event_applied(p, e).root.kind == p.root.kind,
{
    lemma_event_keeps_root_kind(p, e);
}

} // verus!
