//! The chat transcript: its messages, how each stream event changes them,
//! the inbox questions an assistant message raises, and the protocol lines
//! that assistant messages carry.
use vstd::prelude::*;

use crate::forms::lemma_decimal_digits;
use crate::runtime::{opt_text, ChatStreamEvent, ChatStreamEventView};
use crate::text::{
    chars_eq, chars_of, decimal, dot_sep, has_prefix, has_prefix_exec, join, join_chars,
    line_pieces, line_scan, push_decimal, split_lines, string_from, text_eq, trim, trim_chars,
    trim_end, trim_end_chars,
};

verus! {

/// What a transcript message shows.
#[derive(Debug, Clone, Copy, PartialEq, Eq, Structural)]
pub enum ChatMessageKind {
    User,
    Assistant,
    Reasoning,
    Activity,
    Command,
    Status,
}

/// One message of the transcript.
#[derive(Debug, Clone, PartialEq, Eq)]
pub struct MessageItem {
    pub id: String,
    pub kind: ChatMessageKind,
    pub title: Option<String>,
    pub agent_label: Option<String>,
    pub text: String,
    pub details: Option<String>,
    pub expanded: bool,
    pub complete: bool,
}

/// A message as plain values.
pub struct MessageView {
    pub id: Seq<char>,
    pub kind: ChatMessageKind,
    pub title: Option<Seq<char>>,
    pub agent_label: Option<Seq<char>>,
    pub text: Seq<char>,
    pub details: Option<Seq<char>>,
    pub expanded: bool,
    pub complete: bool,
}

impl View for MessageItem {
    type V = MessageView;

    open spec fn view(&self) -> MessageView {
        MessageView {
            id: self.id@,
            kind: self.kind,
            title: opt_text(self.title),
            agent_label: opt_text(self.agent_label),
            text: self.text@,
            details: opt_text(self.details),
            expanded: self.expanded,
            complete: self.complete,
        }
    }
}

/// The views of a transcript.
pub open spec fn message_views(s: Seq<MessageItem>) -> Seq<MessageView> {
    s.map_values(|m: MessageItem| m@)
}

fn copy_opt_text(o: &Option<String>) -> (r: Option<String>)
    ensures
        opt_text(r) == opt_text(*o),
{
    match o {
        Some(s) => Some(s.clone()),
        None => None,
    }
}

impl MessageItem {
    /// A copy of the message.
    pub fn copy(&self) -> (r: MessageItem)
        ensures
            r@ == self@,
    {
        MessageItem {
            id: self.id.clone(),
            kind: self.kind,
            title: copy_opt_text(&self.title),
            agent_label: copy_opt_text(&self.agent_label),
            text: self.text.clone(),
            details: copy_opt_text(&self.details),
            expanded: self.expanded,
            complete: self.complete,
        }
    }
}

/// The position of the first message with id `id`, or -1.
#[verifier::opaque]
pub open spec fn msg_pos(s: Seq<MessageView>, id: Seq<char>) -> int {
    if exists|i: int| 0 <= i < s.len() && s[i].id == id {
        choose|i: int|
            0 <= i < s.len() && s[i].id == id && (forall|j: int| 0 <= j < i ==> s[j].id != id)
    } else {
        -1
    }
}

/// Whether a message is a status line still in progress.
pub open spec fn open_status(m: MessageView) -> bool {
    m.kind == ChatMessageKind::Status && !m.complete
}

/// The position of the last status line still in progress, or -1.
#[verifier::opaque]
pub open spec fn last_open_status(s: Seq<MessageView>) -> int {
    if exists|i: int| 0 <= i < s.len() && open_status(s[i]) {
        choose|i: int|
            0 <= i < s.len() && open_status(s[i]) && (forall|j: int|
                i < j < s.len() ==> !open_status(s[j]))
    } else {
        -1
    }
}

proof fn lemma_msg_pos_found(s: Seq<MessageView>, id: Seq<char>, i: int)
    requires
        0 <= i < s.len(),
        s[i].id == id,
        forall|j: int| 0 <= j < i ==> s[j].id != id,
    ensures
        msg_pos(s, id) == i,
{
    reveal(msg_pos);
    let c = msg_pos(s, id);
    if c < i {
    } else if c > i {
    }
}

proof fn lemma_msg_pos_none(s: Seq<MessageView>, id: Seq<char>)
    requires
        forall|j: int| 0 <= j < s.len() ==> s[j].id != id,
    ensures
        msg_pos(s, id) == -1,
{
    reveal(msg_pos);
}

proof fn lemma_last_open_found(s: Seq<MessageView>, i: int)
    requires
        0 <= i < s.len(),
        open_status(s[i]),
        forall|j: int| i < j < s.len() ==> !open_status(s[j]),
    ensures
        last_open_status(s) == i,
{
    reveal(last_open_status);
    let c = last_open_status(s);
    if c < i {
    } else if c > i {
    }
}

proof fn lemma_last_open_none(s: Seq<MessageView>)
    requires
        forall|j: int| 0 <= j < s.len() ==> !open_status(s[j]),
    ensures
        last_open_status(s) == -1,
{
    reveal(last_open_status);
}

/// A new message.
pub open spec fn fresh_message(
    id: Seq<char>,
    kind: ChatMessageKind,
    title: Option<Seq<char>>,
    agent_label: Option<Seq<char>>,
    text: Seq<char>,
    details: Option<Seq<char>>,
    complete: bool,
) -> MessageView {
    MessageView { id, kind, title, agent_label, text, details, expanded: false, complete }
}

/// The transcript after a status update: the last status line in
/// progress takes the text, or a new one is added.
pub open spec fn status_set(s: Seq<MessageView>, text: Seq<char>, fresh_id: Seq<char>) -> Seq<MessageView> {
    let p = last_open_status(s);
    if p >= 0 {
        s.update(p, MessageView { text, ..s[p] })
    } else {
        s.push(fresh_message(fresh_id, ChatMessageKind::Status, None, None, text, None, false))
    }
}

/// The transcript without its status lines in progress.
pub open spec fn settled(s: Seq<MessageView>) -> Seq<MessageView>
    decreases s.len(),
{
    if s.len() == 0 {
        s
    } else if open_status(s.last()) {
        settled(s.drop_last())
    } else {
        settled(s.drop_last()).push(s.last())
    }
}

/// The transcript after a command starts: its message becomes a command
/// line `$ command`, titled and labelled with the title, with empty output
/// where it had none; a new one is added where there is none.
pub open spec fn command_set(
    s: Seq<MessageView>,
    id: Seq<char>,
    title: Option<Seq<char>>,
    command: Seq<char>,
) -> Seq<MessageView> {
    let p = msg_pos(s, id);
    let text = "$ "@ + command;
    if p >= 0 {
        s.update(
            p,
            MessageView {
                kind: ChatMessageKind::Command,
                title,
                agent_label: title,
                text,
                details: if s[p].details is None {
                    Some(Seq::empty())
                } else {
                    s[p].details
                },
                ..s[p]
            },
        )
    } else {
        s.push(
            fresh_message(id, ChatMessageKind::Command, title, title, text, Some(Seq::empty()), false),
        )
    }
}

/// The transcript after an activity is reported: its message takes the
/// title, label, detail and completion, or a new one is added.
pub open spec fn activity_set(
    s: Seq<MessageView>,
    id: Seq<char>,
    title: Seq<char>,
    agent_label: Option<Seq<char>>,
    detail: Seq<char>,
    complete: bool,
) -> Seq<MessageView> {
    let p = msg_pos(s, id);
    if p >= 0 {
        s.update(
            p,
            MessageView {
                kind: ChatMessageKind::Activity,
                title: Some(title),
                agent_label,
                text: detail,
                complete,
                ..s[p]
            },
        )
    } else {
        s.push(
            fresh_message(id, ChatMessageKind::Activity, Some(title), agent_label, detail, None, complete),
        )
    }
}

/// The transcript after command output arrives: it is added to the
/// command's output, where the command has a message.
pub open spec fn output_added(s: Seq<MessageView>, id: Seq<char>, delta: Seq<char>) -> Seq<MessageView> {
    let p = msg_pos(s, id);
    if p >= 0 {
        let before = match s[p].details {
            Some(d) => d,
            None => Seq::empty(),
        };
        s.update(p, MessageView { details: Some(before + delta), ..s[p] })
    } else {
        s
    }
}

/// The transcript after streamed text arrives: it is added to its
/// message, which keeps its title and label where it has them; a new
/// message of the given kind is added where there is none.
pub open spec fn delta_added(
    s: Seq<MessageView>,
    id: Seq<char>,
    kind: ChatMessageKind,
    title: Option<Seq<char>>,
    agent_label: Option<Seq<char>>,
    delta: Seq<char>,
) -> Seq<MessageView> {
    let p = msg_pos(s, id);
    if p >= 0 {
        s.update(
            p,
            MessageView {
                title: if s[p].title is None {
                    title
                } else {
                    s[p].title
                },
                agent_label: if s[p].agent_label is None {
                    agent_label
                } else {
                    s[p].agent_label
                },
                text: s[p].text + delta,
                ..s[p]
            },
        )
    } else {
        s.push(fresh_message(id, kind, title, agent_label, delta, None, false))
    }
}

/// The transcript after a message is clicked: a command with output opens
/// or closes.
pub open spec fn toggled(s: Seq<MessageView>, id: Seq<char>) -> Seq<MessageView> {
    let p = msg_pos(s, id);
    if p >= 0 && s[p].kind == ChatMessageKind::Command && s[p].details is Some
        && s[p].details->0.len() > 0 {
        s.update(p, MessageView { expanded: !s[p].expanded, ..s[p] })
    } else {
        s
    }
}

/// The transcript after an item is done: its message is complete.
pub open spec fn marked_done(s: Seq<MessageView>, id: Seq<char>) -> Seq<MessageView> {
    let p = msg_pos(s, id);
    if p >= 0 {
        s.update(p, MessageView { complete: true, ..s[p] })
    } else {
        s
    }
}

/// The transcript after an error: a completed status line titled `Error`.
pub open spec fn error_added(s: Seq<MessageView>, message: Seq<char>, fresh_id: Seq<char>) -> Seq<
    MessageView,
> {
    s.push(
        fresh_message(
            fresh_id,
            ChatMessageKind::Status,
            Some("Error"@),
            None,
            message,
            None,
            true,
        ),
    )
}

fn find_message(items: &Vec<MessageItem>, id: &str) -> (r: Option<usize>)
    ensures
        match r {
            Some(i) => i < items@.len() && msg_pos(message_views(items@), id@) == i,
            None => msg_pos(message_views(items@), id@) == -1,
        },
{
    let ghost v = message_views(items@);
    let mut i: usize = 0;
    while i < items.len()
        invariant
            i <= items@.len(),
            v == message_views(items@),
            forall|j: int| 0 <= j < i ==> v[j].id != id@,
        decreases items@.len() - i,
    {
        if text_eq(items[i].id.as_str(), id) {
            proof {
                lemma_msg_pos_found(v, id@, i as int);
            }
            return Some(i);
        }
        i = i + 1;
    }
    proof {
        lemma_msg_pos_none(v, id@);
    }
    None
}

fn set_message(items: &mut Vec<MessageItem>, i: usize, m: MessageItem)
    requires
        i < old(items)@.len(),
    ensures
        message_views(final(items)@) == message_views(old(items)@).update(i as int, m@),
{
    items.set(i, m);
    proof {
        assert(message_views(items@) =~= message_views(old(items)@).update(i as int, m@));
    }
}

fn push_message(items: &mut Vec<MessageItem>, m: MessageItem)
    ensures
        message_views(final(items)@) == message_views(old(items)@).push(m@),
{
    items.push(m);
    proof {
        assert(message_views(items@) =~= message_views(old(items)@).push(m@));
    }
}

fn is_open_status(m: &MessageItem) -> (b: bool)
    ensures
        b == open_status(m@),
{
    m.kind == ChatMessageKind::Status && !m.complete
}

/// Shows a status: the last status line in progress takes the text, or a
/// new one with id `fresh_id` is added.
pub fn append_or_replace_status(items: &mut Vec<MessageItem>, text: &str, fresh_id: String)
    ensures
        message_views(final(items)@) == status_set(message_views(old(items)@), text@, fresh_id@),
{
    let ghost v = message_views(items@);
    let mut i: usize = items.len();
    while i > 0
        invariant
            i <= items@.len(),
            v == message_views(items@),
            items@ == old(items)@,
            forall|j: int| i <= j < items@.len() ==> !open_status(#[trigger] v[j]),
        decreases i,
    {
        if is_open_status(&items[i - 1]) {
            proof {
                lemma_last_open_found(v, i - 1);
            }
            let mut m = items[i - 1].copy();
            m.text = String::from_str(text);
            set_message(items, i - 1, m);
            return;
        }
        i = i - 1;
    }
    proof {
        lemma_last_open_none(v);
    }
    push_message(
        items,
        MessageItem {
            id: fresh_id,
            kind: ChatMessageKind::Status,
            title: None,
            agent_label: None,
            text: String::from_str(text),
            details: None,
            expanded: false,
            complete: false,
        },
    );
}

/// Drops the status lines still in progress.
pub fn complete_active_status_messages(items: &mut Vec<MessageItem>)
    ensures
        message_views(final(items)@) == settled(message_views(old(items)@)),
{
    let ghost orig = items@;
    let ghost ov = message_views(orig);
    let n = items.len();
    let mut i: usize = 0;
    let mut k: usize = 0;
    proof {
        assert(ov.take(0) == Seq::<MessageView>::empty());
        assert(orig.skip(0) == orig);
    }
    while k < n
        invariant
            n == orig.len(),
            ov == message_views(orig),
            k <= n,
            i <= items@.len(),
            items@.len() <= n,
            message_views(items@.take(i as int)) == settled(ov.take(k as int)),
            items@.skip(i as int) == orig.skip(k as int),
            items@.len() - i == n - k,
        decreases n - k,
    {
        let ghost before = items@;
        proof {
            assert(ov.take(k + 1).drop_last() == ov.take(k as int));
            assert(ov.take(k + 1).last() == orig[k as int]@);
            assert(before[i as int] == before.skip(i as int)[0]);
            assert(orig.skip(k as int)[0] == orig[k as int]);
        }
        if is_open_status(&items[i]) {
            items.remove(i);
            proof {
                assert(items@.take(i as int) == before.take(i as int));
                assert(items@.skip(i as int) == before.skip(i + 1));
                assert(before.skip(i + 1) == orig.skip(k + 1)) by {
                    assert(before.skip(i as int).skip(1) == before.skip(i + 1));
                    assert(orig.skip(k as int).skip(1) == orig.skip(k + 1));
                }
            }
        } else {
            proof {
                assert(items@.take(i + 1) == before.take(i as int).push(before[i as int]));
                assert(message_views(items@.take(i + 1)) == message_views(
                    before.take(i as int),
                ).push(before[i as int]@));
                assert(items@.skip(i + 1) == orig.skip(k + 1)) by {
                    assert(before.skip(i as int).skip(1) == before.skip(i + 1));
                    assert(orig.skip(k as int).skip(1) == orig.skip(k + 1));
                }
            }
            i = i + 1;
        }
        k = k + 1;
    }
    proof {
        assert(ov.take(n as int) == ov);
        assert(items@.take(i as int) == items@);
    }
}

fn text_opt(o: &Option<String>) -> (r: Option<String>)
    ensures
        opt_text(r) == opt_text(*o),
{
    copy_opt_text(o)
}

fn dollar_line(command: &str) -> (r: String)
    ensures
        r@ == "$ "@ + command@,
{
    let mut v = chars_of("$ ");
    proof {
        reveal_strlit("$ ");
    }
    let c = chars_of(command);
    let ghost start = v@;
    for i in 0..c.len()
        invariant
            v@ == start + c@.take(i as int),
    {
        v.push(c[i]);
        proof {
            assert(c@.take(i as int).push(c@[i as int]) == c@.take(i + 1));
        }
    }
    proof {
        assert(c@.take(c@.len() as int) == c@);
    }
    string_from(&v)
}

/// Shows a command starting: its message becomes the command line.
pub fn ensure_command_message(items: &mut Vec<MessageItem>, id: &str, title: Option<String>, command: &str)
    ensures
        message_views(final(items)@) == command_set(
            message_views(old(items)@),
            id@,
            opt_text(title),
            command@,
        ),
{
    match find_message(items, id) {
        Some(i) => {
            let mut m = items[i].copy();
            m.kind = ChatMessageKind::Command;
            m.title = text_opt(&title);
            m.agent_label = title;
            m.text = dollar_line(command);
            if m.details.is_none() {
                m.details = Some(String::new());
            }
            set_message(items, i, m);
        },
        None => {
            push_message(
                items,
                MessageItem {
                    id: String::from_str(id),
                    kind: ChatMessageKind::Command,
                    title: text_opt(&title),
                    agent_label: title,
                    text: dollar_line(command),
                    details: Some(String::new()),
                    expanded: false,
                    complete: false,
                },
            );
        },
    }
}

/// Shows an activity: its message takes the title, label, detail and
/// completion, or a new one is added.
pub fn upsert_activity_message(
    items: &mut Vec<MessageItem>,
    id: &str,
    title: &str,
    agent_label: Option<String>,
    detail: &str,
    complete: bool,
)
    ensures
        message_views(final(items)@) == activity_set(
            message_views(old(items)@),
            id@,
            title@,
            opt_text(agent_label),
            detail@,
            complete,
        ),
{
    match find_message(items, id) {
        Some(i) => {
            let mut m = items[i].copy();
            m.kind = ChatMessageKind::Activity;
            m.title = Some(String::from_str(title));
            m.agent_label = agent_label;
            m.text = String::from_str(detail);
            m.complete = complete;
            set_message(items, i, m);
        },
        None => {
            push_message(
                items,
                MessageItem {
                    id: String::from_str(id),
                    kind: ChatMessageKind::Activity,
                    title: Some(String::from_str(title)),
                    agent_label,
                    text: String::from_str(detail),
                    details: None,
                    expanded: false,
                    complete,
                },
            );
        },
    }
}

fn concat(a: &str, b: &str) -> (r: String)
    ensures
        r@ == a@ + b@,
{
    let mut v = chars_of(a);
    let c = chars_of(b);
    let ghost start = v@;
    for i in 0..c.len()
        invariant
            v@ == start + c@.take(i as int),
    {
        v.push(c[i]);
        proof {
            assert(c@.take(i as int).push(c@[i as int]) == c@.take(i + 1));
        }
    }
    proof {
        assert(c@.take(c@.len() as int) == c@);
    }
    string_from(&v)
}

/// Adds command output to the command's message, where there is one.
pub fn append_command_output(items: &mut Vec<MessageItem>, id: &str, delta: &str)
    ensures
        message_views(final(items)@) == output_added(message_views(old(items)@), id@, delta@),
{
    match find_message(items, id) {
        Some(i) => {
            let mut m = items[i].copy();
            let before = match &m.details {
                Some(d) => d.clone(),
                None => String::new(),
            };
            m.details = Some(concat(before.as_str(), delta));
            set_message(items, i, m);
        },
        None => {},
    }
}

/// Adds streamed text to its message, or starts a message of the given
/// kind with it.
pub fn append_chat_delta(
    items: &mut Vec<MessageItem>,
    id: &str,
    kind: ChatMessageKind,
    title: Option<String>,
    agent_label: Option<String>,
    delta: &str,
)
    ensures
        message_views(final(items)@) == delta_added(
            message_views(old(items)@),
            id@,
            kind,
            opt_text(title),
            opt_text(agent_label),
            delta@,
        ),
{
    match find_message(items, id) {
        Some(i) => {
            let mut m = items[i].copy();
            if m.title.is_none() {
                m.title = title;
            }
            if m.agent_label.is_none() {
                m.agent_label = agent_label;
            }
            m.text = concat(m.text.as_str(), delta);
            set_message(items, i, m);
        },
        None => {
            push_message(
                items,
                MessageItem {
                    id: String::from_str(id),
                    kind,
                    title,
                    agent_label,
                    text: String::from_str(delta),
                    details: None,
                    expanded: false,
                    complete: false,
                },
            );
        },
    }
}

/// Opens or closes the output of a command message that has output.
pub fn toggle_command_message(items: &mut Vec<MessageItem>, id: &str)
    ensures
        message_views(final(items)@) == toggled(message_views(old(items)@), id@),
{
    match find_message(items, id) {
        Some(i) => {
            let has_output = match &items[i].details {
                Some(d) => chars_of(d.as_str()).len() > 0,
                None => false,
            };
            if items[i].kind == ChatMessageKind::Command && has_output {
                let mut m = items[i].copy();
                m.expanded = !m.expanded;
                set_message(items, i, m);
            }
        },
        None => {},
    }
}

/// Marks the message of a finished item complete.
pub fn mark_message_done(items: &mut Vec<MessageItem>, id: &str)
    ensures
        message_views(final(items)@) == marked_done(message_views(old(items)@), id@),
{
    match find_message(items, id) {
        Some(i) => {
            let mut m = items[i].copy();
            m.complete = true;
            set_message(items, i, m);
        },
        None => {},
    }
}

/// Adds an error line with id `fresh_id`.
pub fn push_error_message(items: &mut Vec<MessageItem>, message: String, fresh_id: String)
    ensures
        message_views(final(items)@) == error_added(message_views(old(items)@), message@, fresh_id@),
{
    proof {
        reveal_strlit("Error");
    }
    push_message(
        items,
        MessageItem {
            id: fresh_id,
            kind: ChatMessageKind::Status,
            title: Some(String::from_str("Error")),
            agent_label: None,
            text: message,
            details: None,
            expanded: false,
            complete: true,
        },
    );
}


/// The transcript after a stream event.
pub open spec fn transcript_after(s: Seq<MessageView>, e: ChatStreamEventView, fresh_id: Seq<char>) -> Seq<
    MessageView,
> {
    match e {
        ChatStreamEventView::Status { message } => status_set(s, message, fresh_id),
        ChatStreamEventView::Activity { item_id, title, detail, agent_label, complete } =>
            activity_set(settled(s), item_id, title, agent_label, detail, complete),
        ChatStreamEventView::CollabTool { item_id, title, detail, agent_label, complete, .. } =>
            activity_set(settled(s), item_id, title, agent_label, detail, complete),
        ChatStreamEventView::AssistantDelta { item_id, title, delta } => delta_added(
            settled(s),
            item_id,
            ChatMessageKind::Assistant,
            title,
            title,
            delta,
        ),
        ChatStreamEventView::ReasoningDelta { item_id, title, delta } => delta_added(
            settled(s),
            item_id,
            ChatMessageKind::Reasoning,
            if title is Some {
                title
            } else {
                Some("Thinking"@)
            },
            title,
            delta,
        ),
        ChatStreamEventView::CommandStarted { item_id, title, command } => command_set(
            settled(s),
            item_id,
            title,
            command,
        ),
        ChatStreamEventView::CommandDelta { item_id, delta } => output_added(
            settled(s),
            item_id,
            delta,
        ),
        ChatStreamEventView::ItemDone { item_id } => marked_done(s, item_id),
        ChatStreamEventView::Error { message } => error_added(settled(s), message, fresh_id),
        ChatStreamEventView::Completed => settled(s),
        _ => s,
    }
}

/// Updates the transcript for a stream event; a message the event adds
/// (a status or an error line) gets the id `fresh_id`.
pub fn apply_event_to_transcript(items: &mut Vec<MessageItem>, event: &ChatStreamEvent, fresh_id: String)
    ensures
        message_views(final(items)@) == transcript_after(
            message_views(old(items)@),
            event@,
            fresh_id@,
        ),
{
    match event {
        ChatStreamEvent::Status { message } => {
            append_or_replace_status(items, message.as_str(), fresh_id);
        },
        ChatStreamEvent::Activity { item_id, title, detail, agent_label, complete } => {
            complete_active_status_messages(items);
            upsert_activity_message(
                items,
                item_id.as_str(),
                title.as_str(),
                copy_opt_text(agent_label),
                detail.as_str(),
                *complete,
            );
        },
        ChatStreamEvent::CollabTool { item_id, title, detail, agent_label, complete, .. } => {
            complete_active_status_messages(items);
            upsert_activity_message(
                items,
                item_id.as_str(),
                title.as_str(),
                copy_opt_text(agent_label),
                detail.as_str(),
                *complete,
            );
        },
        ChatStreamEvent::AssistantDelta { item_id, title, delta } => {
            complete_active_status_messages(items);
            append_chat_delta(
                items,
                item_id.as_str(),
                ChatMessageKind::Assistant,
                copy_opt_text(title),
                copy_opt_text(title),
                delta.as_str(),
            );
        },
        ChatStreamEvent::ReasoningDelta { item_id, title, delta } => {
            complete_active_status_messages(items);
            let shown = match title {
                Some(t) => Some(t.clone()),
                None => {
                    proof {
                        reveal_strlit("Thinking");
                    }
                    Some(String::from_str("Thinking"))
                },
            };
            append_chat_delta(
                items,
                item_id.as_str(),
                ChatMessageKind::Reasoning,
                shown,
                copy_opt_text(title),
                delta.as_str(),
            );
        },
        ChatStreamEvent::CommandStarted { item_id, title, command } => {
            complete_active_status_messages(items);
            ensure_command_message(items, item_id.as_str(), copy_opt_text(title), command.as_str());
        },
        ChatStreamEvent::CommandDelta { item_id, delta } => {
            complete_active_status_messages(items);
            append_command_output(items, item_id.as_str(), delta.as_str());
        },
        ChatStreamEvent::ItemDone { item_id } => {
            mark_message_done(items, item_id.as_str());
        },
        ChatStreamEvent::Error { message } => {
            complete_active_status_messages(items);
            push_error_message(items, message.clone(), fresh_id);
        },
        ChatStreamEvent::Completed => {
            complete_active_status_messages(items);
        },
        _ => {},
    }
}

/// A line without the carriage return before its line feed.
pub open spec fn without_cr(l: Seq<char>) -> Seq<char> {
    if l.len() > 0 && l.last() == '\r' {
        l.drop_last()
    } else {
        l
    }
}

/// The lines of a text as `str::lines` gives them: split at line feeds, a
/// carriage return before a line feed dropped, and no empty last line.
pub open spec fn text_lines(s: Seq<char>) -> Seq<Seq<char>> {
    let ps = line_pieces(s);
    let body = ps.drop_last().map_values(|l: Seq<char>| without_cr(l));
    if ps.last().len() > 0 {
        body.push(ps.last())
    } else {
        body
    }
}

/// The views of a vector of character vectors.
pub open spec fn char_views(v: Seq<Vec<char>>) -> Seq<Seq<char>> {
    v.map_values(|l: Vec<char>| l@)
}

fn lines_of(text: &str) -> (r: Vec<Vec<char>>)
    ensures
        char_views(r@) == text_lines(text@),
{
    let pieces = split_lines(&chars_of(text));
    let ghost ps = char_views(pieces@);
    let n = pieces.len();
    let mut out: Vec<Vec<char>> = Vec::new();
    let mut i: usize = 0;
    proof {
        let (done, cur) = line_scan(text@);
        assert(line_pieces(text@) == done.push(cur));
        assert(ps.len() == pieces@.len());
    }
    while i + 1 < n
        invariant
            n == pieces@.len(),
            n >= 1,
            ps == char_views(pieces@),
            ps == line_pieces(text@),
            i + 1 <= n,
            char_views(out@) == ps.drop_last().take(i as int).map_values(
                |l: Seq<char>| without_cr(l),
            ),
        decreases n - i,
    {
        let l = &pieces[i];
        let mut c: Vec<char> = l.clone();
        let len = c.len();
        if len > 0 && c[len - 1] == '\r' {
            c.pop();
        }
        proof {
            assert(l@ == ps[i as int]);
            assert(c@ == without_cr(ps[i as int]));
        }
        let ghost before = out@;
        out.push(c);
        proof {
            assert(char_views(out@) == char_views(before).push(c@));
            assert(ps.drop_last().take(i + 1) == ps.drop_last().take(i as int).push(
                ps.drop_last()[i as int],
            ));
        }
        i = i + 1;
    }
    proof {
        assert(ps.drop_last().take(i as int) == ps.drop_last());
    }
    let last = &pieces[n - 1];
    if last.len() > 0 {
        let ghost before = out@;
        out.push(last.clone());
        proof {
            assert(char_views(out@) == char_views(before).push(last@));
            assert(ps.last() == last@);
        }
    } else {
        proof {
            assert(ps.last() == last@);
        }
    }
    out
}

/// The marker of a line that asks the user a question.
pub open spec fn inbox_marker() -> Seq<char> {
    "[[inbox-question]]"@
}

/// The marker of a line that ends Auto Drive.
pub open spec fn stop_marker() -> Seq<char> {
    "[[auto-drive-stop]]"@
}

/// What follows a marker on a line that starts with it, trimmed.
pub open spec fn after_marker(line: Seq<char>, marker: Seq<char>) -> Option<Seq<char>> {
    let t = trim(line);
    if has_prefix(t, marker) {
        Some(trim(t.skip(marker.len() as int)))
    } else {
        None
    }
}

/// The question a line asks, if it is a question line with a question.
pub open spec fn question_of(line: Seq<char>) -> Option<Seq<char>> {
    match after_marker(line, inbox_marker()) {
        Some(q) => if q.len() > 0 {
            Some(q)
        } else {
            None
        },
        None => None,
    }
}

/// The lines that count: all of them, or all but a last line that has no
/// line feed yet where such a line does not count.
pub open spec fn counted_lines(text: Seq<char>, include_trailing_partial: bool) -> Seq<Seq<char>> {
    let ls = text_lines(text);
    if !include_trailing_partial && ls.len() > 0 && !(text.len() > 0 && text.last() == '\n') {
        ls.drop_last()
    } else {
        ls
    }
}

/// The questions of a text, in order.
pub open spec fn inbox_questions(text: Seq<char>, include_trailing_partial: bool) -> Seq<Seq<char>> {
    counted_lines(text, include_trailing_partial).filter_map(|l: Seq<char>| question_of(l))
}

/// What is said where the stop marker gives no reason.
pub open spec fn default_stop_reason() -> Seq<char> {
    "the objective appears complete"@
}

/// The reason a stop line gives, if the line is one.
pub open spec fn stop_reason_of(line: Seq<char>) -> Option<Seq<char>> {
    match after_marker(line, stop_marker()) {
        Some(r) => if r.len() > 0 {
            Some(r)
        } else {
            Some(default_stop_reason())
        },
        None => None,
    }
}

/// The reason of the first stop line of a text.
pub open spec fn stop_reason(text: Seq<char>, include_trailing_partial: bool) -> Option<Seq<char>> {
    let qs = counted_lines(text, include_trailing_partial).filter_map(|l: Seq<char>| stop_reason_of(l));
    if qs.len() > 0 {
        Some(qs[0])
    } else {
        None
    }
}

fn ends_with_line_feed(text: &str) -> (b: bool)
    ensures
        b == (text@.len() > 0 && text@.last() == '\n'),
{
    let v = chars_of(text);
    v.len() > 0 && v[v.len() - 1] == '\n'
}

fn counted_lines_of(text: &str, include_trailing_partial: bool) -> (r: Vec<Vec<char>>)
    ensures
        char_views(r@) == counted_lines(text@, include_trailing_partial),
{
    let mut ls = lines_of(text);
    if !include_trailing_partial && ls.len() > 0 && !ends_with_line_feed(text) {
        let ghost before = ls@;
        ls.pop();
        proof {
            assert(ls@ == before.drop_last());
            assert(char_views(ls@) == char_views(before).drop_last());
        }
    }
    ls
}

fn after_marker_exec(line: &Vec<char>, marker: &Vec<char>) -> (r: Option<Vec<char>>)
    ensures
        match r {
            Some(x) => after_marker(line@, marker@) == Some(x@),
            None => after_marker(line@, marker@) is None,
        },
{
    let t = trim_chars(line);
    if !has_prefix_exec(&t, marker) {
        return None;
    }
    let mut rest: Vec<char> = Vec::new();
    let mut i = marker.len();
    while i < t.len()
        invariant
            marker@.len() <= i <= t@.len(),
            rest@ == t@.subrange(marker@.len() as int, i as int),
        decreases t@.len() - i,
    {
        rest.push(t[i]);
        proof {
            assert(t@.subrange(marker@.len() as int, i as int).push(t@[i as int])
                == t@.subrange(marker@.len() as int, i + 1));
        }
        i = i + 1;
    }
    proof {
        assert(t@.subrange(marker@.len() as int, t@.len() as int) == t@.skip(
            marker@.len() as int,
        ));
    }
    Some(trim_chars(&rest))
}

/// The questions that an assistant text asks with question lines; a last
/// line without a line feed yet counts only where asked for.
pub fn extract_inbox_questions(text: &str, include_trailing_partial: bool) -> (r: Vec<String>)
    ensures
        r@.map_values(|q: String| q@) == inbox_questions(text@, include_trailing_partial),
{
    let ls = counted_lines_of(text, include_trailing_partial);
    let ghost views = char_views(ls@);
    let ghost f = |l: Seq<char>| question_of(l);
    let marker = chars_of("[[inbox-question]]");
    proof {
        reveal_strlit("[[inbox-question]]");
    }
    let mut out: Vec<String> = Vec::new();
    let mut i: usize = 0;
    while i < ls.len()
        invariant
            i <= ls@.len(),
            views == char_views(ls@),
            views == counted_lines(text@, include_trailing_partial),
            f == (|l: Seq<char>| question_of(l)),
            marker@ == inbox_marker(),
            out@.map_values(|q: String| q@) == views.take(i as int).filter_map(f),
        decreases ls@.len() - i,
    {
        proof {
            views.lemma_filter_map_take_succ(f, i as int);
            assert(views[i as int] == ls@[i as int]@);
        }
        let ghost before = out@;
        match after_marker_exec(&ls[i], &marker) {
            Some(q) => {
                if q.len() > 0 {
                    out.push(string_from(&q));
                    proof {
                        assert(out@.map_values(|q: String| q@) == before.map_values(
                            |q: String| q@,
                        ) + seq![q@]);
                    }
                }
            },
            None => {},
        }
        i = i + 1;
    }
    proof {
        assert(views.take(ls@.len() as int) == views);
    }
    out
}

/// The reason of the first stop line of an assistant text; a last line
/// without a line feed yet counts only where asked for.
pub fn extract_auto_drive_stop_reason(text: &str, include_trailing_partial: bool) -> (r: Option<String>)
    ensures
        match r {
            Some(x) => stop_reason(text@, include_trailing_partial) == Some(x@),
            None => stop_reason(text@, include_trailing_partial) is None,
        },
{
    let ls = counted_lines_of(text, include_trailing_partial);
    let ghost views = char_views(ls@);
    let ghost f = |l: Seq<char>| stop_reason_of(l);
    let marker = chars_of("[[auto-drive-stop]]");
    proof {
        reveal_strlit("[[auto-drive-stop]]");
        reveal_strlit("the objective appears complete");
    }
    let mut i: usize = 0;
    while i < ls.len()
        invariant
            i <= ls@.len(),
            views == char_views(ls@),
            views == counted_lines(text@, include_trailing_partial),
            f == (|l: Seq<char>| stop_reason_of(l)),
            marker@ == stop_marker(),
            views.take(i as int).filter_map(f).len() == 0,
        decreases ls@.len() - i,
    {
        proof {
            views.lemma_filter_map_take_succ(f, i as int);
            assert(views[i as int] == ls@[i as int]@);
        }
        match after_marker_exec(&ls[i], &marker) {
            Some(reason) => {
                let r = if reason.len() > 0 {
                    string_from(&reason)
                } else {
                    String::from_str("the objective appears complete")
                };
                proof {
                    lemma_filter_map_prefix(views, f, i + 1);
                    assert(views.take(i + 1).filter_map(f) == seq![r@]);
                }
                return Some(r);
            },
            None => {},
        }
        i = i + 1;
    }
    proof {
        assert(views.take(ls@.len() as int) == views);
    }
    None
}

/// The first result of a mapped filter is that of its shortest prefix
/// with a result.
pub proof fn lemma_filter_map_prefix<A, B>(s: Seq<A>, f: spec_fn(A) -> Option<B>, n: int)
    requires
        0 < n <= s.len(),
        s.take(n).filter_map(f).len() > 0,
    ensures
        s.filter_map(f).len() > 0,
        s.filter_map(f)[0] == s.take(n).filter_map(f)[0],
    decreases s.len() - n,
{
    if n < s.len() {
        s.lemma_filter_map_take_succ(f, n);
        lemma_filter_map_prefix(s, f, n + 1);
    } else {
        assert(s.take(n) == s);
    }
}


/// Whether a line is a protocol line: a question or a stop line.
pub open spec fn protocol_line(l: Seq<char>) -> bool {
    has_prefix(trim(l), inbox_marker()) || has_prefix(trim(l), stop_marker())
}

/// A line unless it is a protocol line.
pub open spec fn shown_line(l: Seq<char>) -> Option<Seq<char>> {
    if protocol_line(l) {
        None
    } else {
        Some(l)
    }
}

/// An assistant text as the user reads it: its protocol lines left out,
/// the rest joined by line feeds and trimmed.
pub open spec fn visible_text(text: Seq<char>) -> Seq<char> {
    trim(join(text_lines(text).filter_map(|l: Seq<char>| shown_line(l)), seq!['\n']))
}

fn is_protocol_line(l: &Vec<char>, inbox: &Vec<char>, stop: &Vec<char>) -> (b: bool)
    requires
        inbox@ == inbox_marker(),
        stop@ == stop_marker(),
    ensures
        b == protocol_line(l@),
{
    let t = trim_chars(l);
    has_prefix_exec(&t, inbox) || has_prefix_exec(&t, stop)
}

/// An assistant text without its protocol lines, trimmed.
pub fn strip_assistant_protocol_lines(text: &str) -> (r: String)
    ensures
        r@ == visible_text(text@),
{
    let ls = lines_of(text);
    let ghost views = char_views(ls@);
    let ghost f = |l: Seq<char>| shown_line(l);
    let inbox = chars_of("[[inbox-question]]");
    let stop = chars_of("[[auto-drive-stop]]");
    proof {
        reveal_strlit("[[inbox-question]]");
        reveal_strlit("[[auto-drive-stop]]");
    }
    let mut kept: Vec<Vec<char>> = Vec::new();
    let mut i: usize = 0;
    while i < ls.len()
        invariant
            i <= ls@.len(),
            views == char_views(ls@),
            views == text_lines(text@),
            f == (|l: Seq<char>| shown_line(l)),
            inbox@ == inbox_marker(),
            stop@ == stop_marker(),
            char_views(kept@) == views.take(i as int).filter_map(f),
        decreases ls@.len() - i,
    {
        proof {
            views.lemma_filter_map_take_succ(f, i as int);
            assert(views[i as int] == ls@[i as int]@);
        }
        if !is_protocol_line(&ls[i], &inbox, &stop) {
            let ghost before = kept@;
            kept.push(ls[i].clone());
            proof {
                assert(char_views(kept@) == char_views(before) + seq![ls@[i as int]@]);
            }
        }
        i = i + 1;
    }
    proof {
        assert(views.take(ls@.len() as int) == views);
    }
    let sep: Vec<char> = vec!['\n'];
    let joined = join_chars(&kept, &sep);
    proof {
        assert(sep@ == seq!['\n']);
        assert(kept@.map_values(|p: Vec<char>| p@) == char_views(kept@));
    }
    string_from(&trim_chars(&joined))
}

/// Whom a message is from: its agent label, else its title, else `Brain`.
pub open spec fn source_label(m: MessageView) -> Seq<char> {
    match m.agent_label {
        Some(l) => l,
        None => match m.title {
            Some(t) => t,
            None => "Brain"@,
        },
    }
}

/// Whom a message is from.
pub fn source_label_for_message(message: &MessageItem) -> (r: String)
    ensures
        r@ == source_label(message@),
{
    match &message.agent_label {
        Some(l) => l.clone(),
        None => match &message.title {
            Some(t) => t.clone(),
            None => {
                proof {
                    reveal_strlit("Brain");
                }
                String::from_str("Brain")
            },
        },
    }
}

/// A question waiting in the inbox.
#[derive(Debug, Clone, PartialEq, Eq)]
pub struct InboxItem {
    pub id: String,
    pub source: String,
    pub text: String,
    pub answer_draft: String,
    pub resolved: bool,
}

/// An inbox question as plain values.
pub struct InboxView {
    pub id: Seq<char>,
    pub source: Seq<char>,
    pub text: Seq<char>,
    pub answer_draft: Seq<char>,
    pub resolved: bool,
}

impl View for InboxItem {
    type V = InboxView;

    open spec fn view(&self) -> InboxView {
        InboxView {
            id: self.id@,
            source: self.source@,
            text: self.text@,
            answer_draft: self.answer_draft@,
            resolved: self.resolved,
        }
    }
}

/// The views of an inbox.
pub open spec fn inbox_views(s: Seq<InboxItem>) -> Seq<InboxView> {
    s.map_values(|x: InboxItem| x@)
}

/// The position of the first inbox question with id `id`, or -1.
#[verifier::opaque]
pub open spec fn inbox_pos(s: Seq<InboxView>, id: Seq<char>) -> int {
    if exists|i: int| 0 <= i < s.len() && s[i].id == id {
        choose|i: int|
            0 <= i < s.len() && s[i].id == id && (forall|j: int| 0 <= j < i ==> s[j].id != id)
    } else {
        -1
    }
}

proof fn lemma_inbox_pos_found(s: Seq<InboxView>, id: Seq<char>, i: int)
    requires
        0 <= i < s.len(),
        s[i].id == id,
        forall|j: int| 0 <= j < i ==> s[j].id != id,
    ensures
        inbox_pos(s, id) == i,
{
    reveal(inbox_pos);
    let c = inbox_pos(s, id);
    if c < i {
    } else if c > i {
    }
}

proof fn lemma_inbox_pos_none(s: Seq<InboxView>, id: Seq<char>)
    requires
        forall|j: int| 0 <= j < s.len() ==> s[j].id != id,
    ensures
        inbox_pos(s, id) == -1,
{
    reveal(inbox_pos);
}

/// The id of the `index`-th question of a message.
pub open spec fn question_id(message_id: Seq<char>, index: nat) -> Seq<char> {
    message_id + seq![':'] + decimal(index)
}

/// The inbox with one question set: an existing one with the id takes
/// the text and the source, or a new open one is added.
pub open spec fn question_set(s: Seq<InboxView>, id: Seq<char>, source: Seq<char>, text: Seq<char>) -> Seq<
    InboxView,
> {
    let p = inbox_pos(s, id);
    if p >= 0 {
        s.update(p, InboxView { text, source, ..s[p] })
    } else {
        s.push(InboxView { id, source, text, answer_draft: Seq::empty(), resolved: false })
    }
}

/// The inbox with the questions of a message set, one after the other.
pub open spec fn questions_set(
    s: Seq<InboxView>,
    message_id: Seq<char>,
    source: Seq<char>,
    qs: Seq<Seq<char>>,
) -> Seq<InboxView>
    decreases qs.len(),
{
    if qs.len() == 0 {
        s
    } else {
        question_set(
            questions_set(s, message_id, source, qs.drop_last()),
            question_id(message_id, (qs.len() - 1) as nat),
            source,
            qs.last(),
        )
    }
}

/// The inbox after a message: the questions of an assistant message are
/// set; any other message leaves it as it is.
pub open spec fn inbox_after(s: Seq<InboxView>, m: MessageView, include_trailing_partial: bool) -> Seq<
    InboxView,
> {
    if m.kind == ChatMessageKind::Assistant {
        questions_set(s, m.id, source_label(m), inbox_questions(m.text, include_trailing_partial))
    } else {
        s
    }
}

proof fn lemma_inbox_pos_props(s: Seq<InboxView>, id: Seq<char>)
    ensures
        inbox_pos(s, id) >= 0 ==> {
            &&& inbox_pos(s, id) < s.len()
            &&& s[inbox_pos(s, id)].id == id
            &&& forall|j: int| 0 <= j < inbox_pos(s, id) ==> s[j].id != id
        },
        inbox_pos(s, id) < 0 ==> inbox_pos(s, id) == -1 && forall|j: int|
            0 <= j < s.len() ==> s[j].id != id,
{
    reveal(inbox_pos);
    if exists|i: int| 0 <= i < s.len() && s[i].id == id {
        let w = choose|i: int| 0 <= i < s.len() && s[i].id == id;
        lemma_first_inbox_id(s, id, w);
    }
}

proof fn lemma_first_inbox_id(s: Seq<InboxView>, id: Seq<char>, w: int)
    requires
        0 <= w < s.len(),
        s[w].id == id,
    ensures
        exists|i: int|
            0 <= i < s.len() && s[i].id == id && (forall|j: int| 0 <= j < i ==> s[j].id != id),
    decreases w,
{
    if exists|j: int| 0 <= j < w && s[j].id == id {
        let v = choose|j: int| 0 <= j < w && s[j].id == id;
        lemma_first_inbox_id(s, id, v);
    } else {
        assert(forall|j: int| 0 <= j < w ==> s[j].id != id);
    }
}

/// Two inboxes whose entries have the same ids place every id alike.
proof fn lemma_inbox_pos_same_ids(a: Seq<InboxView>, b: Seq<InboxView>, id: Seq<char>)
    requires
        a.len() == b.len(),
        forall|j: int| 0 <= j < a.len() ==> a[j].id == b[j].id,
    ensures
        inbox_pos(a, id) == inbox_pos(b, id),
{
    lemma_inbox_pos_props(a, id);
    lemma_inbox_pos_props(b, id);
    if inbox_pos(a, id) >= 0 {
        lemma_inbox_pos_found(b, id, inbox_pos(a, id));
    } else if inbox_pos(b, id) >= 0 {
        lemma_inbox_pos_found(a, id, inbox_pos(b, id));
    }
}

proof fn lemma_question_ids_differ(m: Seq<char>, i: nat, j: nat)
    requires
        i != j,
    ensures
        question_id(m, i) != question_id(m, j),
{
    lemma_decimal_digits(i);
    lemma_decimal_digits(j);
    if question_id(m, i) == question_id(m, j) {
        let k = (m.len() + 1) as int;
        assert(question_id(m, i).skip(k) == decimal(i));
        assert(question_id(m, j).skip(k) == decimal(j));
    }
}

/// Whether the inbox holds the first `n` questions of a message: the entry
/// found under each question's id has its text and the message's source.
pub open spec fn holds_questions(
    s: Seq<InboxView>,
    message_id: Seq<char>,
    source: Seq<char>,
    qs: Seq<Seq<char>>,
    n: int,
) -> bool {
    forall|k: int|
        0 <= k < n ==> {
            let p = #[trigger] inbox_pos(s, question_id(message_id, k as nat));
            &&& p >= 0
            &&& s[p].text == qs[k]
            &&& s[p].source == source
        }
}

proof fn lemma_question_set_keeps(
    s: Seq<InboxView>,
    message_id: Seq<char>,
    source: Seq<char>,
    qs: Seq<Seq<char>>,
    n: int,
)
    requires
        0 <= n < qs.len(),
        holds_questions(s, message_id, source, qs, n),
    ensures
        holds_questions(
            question_set(s, question_id(message_id, n as nat), source, qs[n]),
            message_id,
            source,
            qs,
            n + 1,
        ),
{
    let id = question_id(message_id, n as nat);
    let t = question_set(s, id, source, qs[n]);
    lemma_inbox_pos_props(s, id);
    let p = inbox_pos(s, id);
    assert forall|k: int| 0 <= k < n + 1 implies {
        let q = #[trigger] inbox_pos(t, question_id(message_id, k as nat));
        &&& q >= 0
        &&& t[q].text == qs[k]
        &&& t[q].source == source
    } by {
        let kid = question_id(message_id, k as nat);
        if k < n {
            lemma_question_ids_differ(message_id, k as nat, n as nat);
            lemma_inbox_pos_props(s, kid);
            let pk = inbox_pos(s, kid);
            assert(pk >= 0 && s[pk].text == qs[k] && s[pk].source == source);
            if p >= 0 {
                lemma_inbox_pos_same_ids(s, t, kid);
                assert(pk != p);
            } else {
                assert(t == s.push(
                    InboxView { id, source, text: qs[n], answer_draft: Seq::empty(), resolved: false },
                ));
                lemma_inbox_pos_found(t, kid, pk);
            }
        } else {
            if p >= 0 {
                lemma_inbox_pos_same_ids(s, t, id);
            } else {
                lemma_inbox_pos_found(t, id, s.len() as int);
            }
        }
    }
}

proof fn lemma_questions_set_holds(
    s: Seq<InboxView>,
    message_id: Seq<char>,
    source: Seq<char>,
    qs: Seq<Seq<char>>,
    n: int,
)
    requires
        0 <= n <= qs.len(),
    ensures
        holds_questions(questions_set(s, message_id, source, qs.take(n)), message_id, source, qs, n),
    decreases n,
{
    if n > 0 {
        lemma_questions_set_holds(s, message_id, source, qs, n - 1);
        assert(qs.take(n).drop_last() == qs.take(n - 1));
        assert(qs.take(n).last() == qs[n - 1]);
        lemma_question_set_keeps(
            questions_set(s, message_id, source, qs.take(n - 1)),
            message_id,
            source,
            qs,
            n - 1,
        );
    }
}

proof fn lemma_questions_set_fixed(
    u: Seq<InboxView>,
    message_id: Seq<char>,
    source: Seq<char>,
    qs: Seq<Seq<char>>,
    n: int,
)
    requires
        0 <= n <= qs.len(),
        holds_questions(u, message_id, source, qs, qs.len() as int),
    ensures
        questions_set(u, message_id, source, qs.take(n)) == u,
    decreases n,
{
    if n > 0 {
        lemma_questions_set_fixed(u, message_id, source, qs, n - 1);
        assert(qs.take(n).drop_last() == qs.take(n - 1));
        assert(qs.take(n).last() == qs[n - 1]);
        let id = question_id(message_id, (n - 1) as nat);
        assert(inbox_pos(u, id) >= 0);
        lemma_inbox_pos_props(u, id);
        let p = inbox_pos(u, id);
        assert(u.update(p, InboxView { text: qs[n - 1], source, ..u[p] }) =~= u);
    } else {
        assert(qs.take(0).len() == 0);
    }
}

/// Taking the same message into the inbox again changes nothing: the
/// inbox after one upsert is the inbox after two.
pub proof fn law_inbox_upsert_idempotent(s: Seq<InboxView>, m: MessageView, include_trailing_partial: bool)
    ensures
        inbox_after(inbox_after(s, m, include_trailing_partial), m, include_trailing_partial)
            == inbox_after(s, m, include_trailing_partial),
{
    if m.kind == ChatMessageKind::Assistant {
        let qs = inbox_questions(m.text, include_trailing_partial);
        let src = source_label(m);
        assert(qs.take(qs.len() as int) == qs);
        lemma_questions_set_holds(s, m.id, src, qs, qs.len() as int);
        let u = questions_set(s, m.id, src, qs);
        lemma_questions_set_fixed(u, m.id, src, qs, qs.len() as int);
    }
}

fn find_inbox(items: &Vec<InboxItem>, id: &str) -> (r: Option<usize>)
    ensures
        match r {
            Some(i) => i < items@.len() && inbox_pos(inbox_views(items@), id@) == i,
            None => inbox_pos(inbox_views(items@), id@) == -1,
        },
{
    let ghost v = inbox_views(items@);
    let mut i: usize = 0;
    while i < items.len()
        invariant
            i <= items@.len(),
            v == inbox_views(items@),
            forall|j: int| 0 <= j < i ==> v[j].id != id@,
        decreases items@.len() - i,
    {
        if text_eq(items[i].id.as_str(), id) {
            proof {
                lemma_inbox_pos_found(v, id@, i as int);
            }
            return Some(i);
        }
        i = i + 1;
    }
    proof {
        lemma_inbox_pos_none(v, id@);
    }
    None
}

fn question_id_text(message_id: &str, index: usize) -> (r: String)
    ensures
        r@ == question_id(message_id@, index as nat),
{
    let mut v = chars_of(message_id);
    v.push(':');
    push_decimal(&mut v, index as u64);
    string_from(&v)
}

/// Takes the questions of a message into the inbox: each question of an
/// assistant message, under the message's id and its place, updates the
/// inbox entry with that id or is added as a new open question.
pub fn upsert_inbox_items_from_message(
    items: &mut Vec<InboxItem>,
    message: &MessageItem,
    include_trailing_partial: bool,
)
    ensures
        inbox_views(final(items)@) == inbox_after(
            inbox_views(old(items)@),
            message@,
            include_trailing_partial,
        ),
{
    if message.kind != ChatMessageKind::Assistant {
        return;
    }
    let questions = extract_inbox_questions(message.text.as_str(), include_trailing_partial);
    let ghost qs = questions@.map_values(|q: String| q@);
    let source = source_label_for_message(message);
    let mut k: usize = 0;
    proof {
        assert(qs.take(0) == Seq::<Seq<char>>::empty());
    }
    while k < questions.len()
        invariant
            k <= questions@.len(),
            qs == questions@.map_values(|q: String| q@),
            qs == inbox_questions(message.text@, include_trailing_partial),
            source@ == source_label(message@),
            inbox_views(items@) == questions_set(
                inbox_views(old(items)@),
                message.id@,
                source@,
                qs.take(k as int),
            ),
        decreases questions@.len() - k,
    {
        proof {
            assert(qs.take(k + 1).drop_last() == qs.take(k as int));
            assert(qs.take(k + 1).last() == questions@[k as int]@);
        }
        let id = question_id_text(message.id.as_str(), k);
        match find_inbox(items, id.as_str()) {
            Some(i) => {
                let ghost before = items@;
                let entry = InboxItem {
                    id: items[i].id.clone(),
                    source: source.clone(),
                    text: questions[k].clone(),
                    answer_draft: items[i].answer_draft.clone(),
                    resolved: items[i].resolved,
                };
                items.set(i, entry);
                proof {
                    assert(inbox_views(items@) =~= inbox_views(before).update(
                        i as int,
                        InboxView {
                            text: questions@[k as int]@,
                            source: source@,
                            ..inbox_views(before)[i as int]
                        },
                    ));
                }
            },
            None => {
                let ghost before = items@;
                items.push(
                    InboxItem {
                        id,
                        source: source.clone(),
                        text: questions[k].clone(),
                        answer_draft: String::new(),
                        resolved: false,
                    },
                );
                proof {
                    assert(inbox_views(items@) =~= inbox_views(before).push(
                        InboxView {
                            id: question_id(message.id@, k as nat),
                            source: source@,
                            text: questions@[k as int]@,
                            answer_draft: Seq::empty(),
                            resolved: false,
                        },
                    ));
                }
            },
        }
        k = k + 1;
    }
    proof {
        assert(qs.take(questions@.len() as int) == qs);
    }
}


proof fn lemma_first_message_with_id(s: Seq<MessageView>, id: Seq<char>, k: int)
    requires
        0 <= k < s.len(),
        s[k].id == id,
    ensures
        exists|m: int|
            0 <= m <= k && s[m].id == id && (forall|j: int| 0 <= j < m ==> s[j].id != id),
    decreases k,
{
    if exists|j: int| 0 <= j < k && s[j].id == id {
        let j = choose|j: int| 0 <= j < k && s[j].id == id;
        lemma_first_message_with_id(s, id, j);
    } else {
        assert(forall|j: int| 0 <= j < k ==> s[j].id != id);
    }
}

proof fn lemma_msg_pos_props(s: Seq<MessageView>, id: Seq<char>)
    ensures
        msg_pos(s, id) >= 0 ==> msg_pos(s, id) < s.len() && s[msg_pos(s, id)].id == id
            && forall|j: int| 0 <= j < msg_pos(s, id) ==> s[j].id != id,
        msg_pos(s, id) < 0 ==> msg_pos(s, id) == -1 && forall|j: int|
            0 <= j < s.len() ==> s[j].id != id,
{
    reveal(msg_pos);
    if exists|i: int| 0 <= i < s.len() && s[i].id == id {
        let k = choose|i: int| 0 <= i < s.len() && s[i].id == id;
        lemma_first_message_with_id(s, id, k);
    }
}

proof fn lemma_msg_pos_after_update(s: Seq<MessageView>, id: Seq<char>, m: MessageView)
    requires
        msg_pos(s, id) >= 0,
        m.id == id,
    ensures
        msg_pos(s.update(msg_pos(s, id), m), id) == msg_pos(s, id),
{
    lemma_msg_pos_props(s, id);
    let i = msg_pos(s, id);
    let t = s.update(i, m);
    assert forall|j: int| 0 <= j < i implies t[j].id != id by {
        assert(t[j] == s[j]);
    }
    lemma_msg_pos_found(t, id, i);
}

proof fn lemma_msg_pos_after_push(s: Seq<MessageView>, id: Seq<char>, m: MessageView)
    requires
        msg_pos(s, id) < 0,
        m.id == id,
    ensures
        msg_pos(s.push(m), id) == s.len(),
{
    lemma_msg_pos_props(s, id);
    let t = s.push(m);
    assert forall|j: int| 0 <= j < s.len() implies t[j].id != id by {
        assert(t[j] == s[j]);
    }
    lemma_msg_pos_found(t, id, s.len() as int);
}

/// Streamed text that arrives in two pieces leaves the transcript as the
/// two pieces arriving at once would.
pub proof fn law_deltas_accumulate(
    s: Seq<MessageView>,
    id: Seq<char>,
    kind: ChatMessageKind,
    title: Option<Seq<char>>,
    agent_label: Option<Seq<char>>,
    first: Seq<char>,
    second: Seq<char>,
)
    ensures
        delta_added(delta_added(s, id, kind, title, agent_label, first), id, kind, title, agent_label, second)
            == delta_added(s, id, kind, title, agent_label, first + second),
{
    lemma_msg_pos_props(s, id);
    let p = msg_pos(s, id);
    let once = delta_added(s, id, kind, title, agent_label, first);
    if p >= 0 {
        let m = once[p];
        lemma_msg_pos_after_update(s, id, m);
        assert(s[p].text + first + second == s[p].text + (first + second));
        assert(once.update(p, MessageView { text: m.text + second, ..m }) == s.update(
            p,
            MessageView {
                title: if s[p].title is None {
                    title
                } else {
                    s[p].title
                },
                agent_label: if s[p].agent_label is None {
                    agent_label
                } else {
                    s[p].agent_label
                },
                text: s[p].text + (first + second),
                ..s[p]
            },
        ));
    } else {
        let m = fresh_message(id, kind, title, agent_label, first, None, false);
        lemma_msg_pos_after_push(s, id, m);
        assert(once.update(s.len() as int, MessageView { text: first + second, ..m }) == s.push(
            fresh_message(id, kind, title, agent_label, first + second, None, false),
        ));
    }
}

/// Command output that arrives in two pieces leaves the transcript as the
/// two pieces arriving at once would.
pub proof fn law_output_accumulates(s: Seq<MessageView>, id: Seq<char>, first: Seq<char>, second: Seq<char>)
    ensures
        output_added(output_added(s, id, first), id, second) == output_added(s, id, first + second),
{
    lemma_msg_pos_props(s, id);
    let p = msg_pos(s, id);
    if p >= 0 {
        let once = output_added(s, id, first);
        lemma_msg_pos_after_update(s, id, once[p]);
        let before = match s[p].details {
            Some(d) => d,
            None => Seq::<char>::empty(),
        };
        assert(before + first + second == before + (first + second));
        assert(once.update(p, MessageView { details: Some(before + first + second), ..once[p] })
            == s.update(p, MessageView { details: Some(before + (first + second)), ..s[p] }));
    }
}

proof fn lemma_settled_closed(s: Seq<MessageView>)
    ensures
        forall|i: int| 0 <= i < settled(s).len() ==> !open_status(#[trigger] settled(s)[i]),
    decreases s.len(),
{
    if s.len() > 0 {
        lemma_settled_closed(s.drop_last());
        let t = settled(s.drop_last());
        if !open_status(s.last()) {
            assert forall|i: int| 0 <= i < t.push(s.last()).len() implies !open_status(
                #[trigger] t.push(s.last())[i],
            ) by {
                if i < t.len() {
                    assert(t.push(s.last())[i] == t[i]);
                }
            }
        }
    }
}

/// Once the stream ends, no status line is left in progress.
pub proof fn law_stream_end_settles(s: Seq<MessageView>, fresh_id: Seq<char>)
    ensures
        forall|i: int|
            0 <= i < transcript_after(s, ChatStreamEventView::Completed, fresh_id).len()
                ==> !open_status(
                #[trigger] transcript_after(s, ChatStreamEventView::Completed, fresh_id)[i],
            ),
{
    lemma_settled_closed(s);
}

/// A status update replaces the status line in progress rather than adding
/// another: the transcript grows only where none was in progress.
pub proof fn law_status_replaces(s: Seq<MessageView>, text: Seq<char>, fresh_id: Seq<char>)
    ensures
        status_set(s, text, fresh_id).len() == if last_open_status(s) >= 0 {
            s.len()
        } else {
            s.len() + 1
        },
        last_open_status(s) >= 0 ==> exists|i: int|
            0 <= i < s.len() && open_status(s[i]) && #[trigger] status_set(s, text, fresh_id)[i].text
                == text,
{
    reveal(last_open_status);
    if exists|i: int| 0 <= i < s.len() && open_status(s[i]) {
        let k = choose|i: int| 0 <= i < s.len() && open_status(s[i]);
        lemma_last_open_exists(s, k);
        let p = last_open_status(s);
        assert(status_set(s, text, fresh_id)[p].text == text);
    }
}

proof fn lemma_last_open_exists(s: Seq<MessageView>, k: int)
    requires
        0 <= k < s.len(),
        open_status(s[k]),
    ensures
        last_open_status(s) >= k,
        last_open_status(s) < s.len(),
        open_status(s[last_open_status(s)]),
    decreases s.len() - k,
{
    if exists|j: int| k < j < s.len() && open_status(s[j]) {
        let j = choose|j: int| k < j < s.len() && open_status(s[j]);
        lemma_last_open_exists(s, j);
    } else {
        lemma_last_open_found(s, k);
    }
}


/// The transcript with an Auto Drive note: a finished activity line titled
/// `Auto Drive`.
pub open spec fn auto_drive_note(s: Seq<MessageView>, text: Seq<char>, fresh_id: Seq<char>) -> Seq<
    MessageView,
> {
    s.push(
        fresh_message(
            fresh_id,
            ChatMessageKind::Activity,
            Some("Auto Drive"@),
            None,
            text,
            None,
            true,
        ),
    )
}

/// Adds an Auto Drive note with id `fresh_id`.
pub fn push_auto_drive_status(items: &mut Vec<MessageItem>, text: &str, fresh_id: String)
    ensures
        message_views(final(items)@) == auto_drive_note(message_views(old(items)@), text@, fresh_id@),
{
    proof {
        reveal_strlit("Auto Drive");
    }
    push_message(
        items,
        MessageItem {
            id: fresh_id,
            kind: ChatMessageKind::Activity,
            title: Some(String::from_str("Auto Drive")),
            agent_label: None,
            text: String::from_str(text),
            details: None,
            expanded: false,
            complete: true,
        },
    );
}


/// The text of a message as the user reads it: an assistant message
/// without its protocol lines.
pub open spec fn shown_text(m: MessageView) -> Seq<char> {
    if m.kind == ChatMessageKind::Assistant {
        visible_text(m.text)
    } else {
        m.text
    }
}

/// The text of a message as the user reads it.
pub fn message_visible_text(message: &MessageItem) -> (r: String)
    ensures
        r@ == shown_text(message@),
{
    if message.kind == ChatMessageKind::Assistant {
        strip_assistant_protocol_lines(message.text.as_str())
    } else {
        message.text.clone()
    }
}

/// The heading of a message in an exported transcript.
pub open spec fn export_heading(m: MessageView) -> Seq<char> {
    match m.kind {
        ChatMessageKind::User => "You"@,
        ChatMessageKind::Assistant => source_label(m),
        ChatMessageKind::Reasoning => source_label(m) + dot_sep() + "Thinking"@,
        ChatMessageKind::Activity => match m.title {
            Some(t) => t,
            None => source_label(m),
        },
        ChatMessageKind::Command => source_label(m) + dot_sep() + "Command"@,
        ChatMessageKind::Status => match m.title {
            Some(t) => t,
            None => "Status"@,
        },
    }
}

fn add_text(out: &mut Vec<char>, t: &str)
    ensures
        final(out)@ == old(out)@ + t@,
{
    add_chars(out, &chars_of(t));
}

fn add_chars(out: &mut Vec<char>, more: &Vec<char>)
    ensures
        final(out)@ == old(out)@ + more@,
{
    let ghost start = out@;
    for i in 0..more.len()
        invariant
            out@ == start + more@.take(i as int),
    {
        out.push(more[i]);
        proof {
            assert(more@.take(i as int).push(more@[i as int]) == more@.take(i + 1));
        }
    }
    proof {
        assert(more@.take(more@.len() as int) == more@);
    }
}

/// The heading of a message in an exported transcript.
pub fn export_heading_for_message(message: &MessageItem) -> (r: String)
    ensures
        r@ == export_heading(message@),
{
    proof {
        reveal_strlit("You");
        reveal_strlit("Thinking");
        reveal_strlit("Command");
        reveal_strlit("Status");
    }
    match message.kind {
        ChatMessageKind::User => String::from_str("You"),
        ChatMessageKind::Assistant => source_label_for_message(message),
        ChatMessageKind::Reasoning => {
            let mut out = chars_of(source_label_for_message(message).as_str());
            add_chars(&mut out, &dot_chars());
            add_text(&mut out, "Thinking");
            string_from(&out)
        },
        ChatMessageKind::Activity => match &message.title {
            Some(t) => t.clone(),
            None => source_label_for_message(message),
        },
        ChatMessageKind::Command => {
            let mut out = chars_of(source_label_for_message(message).as_str());
            add_chars(&mut out, &dot_chars());
            add_text(&mut out, "Command");
            string_from(&out)
        },
        ChatMessageKind::Status => match &message.title {
            Some(t) => t.clone(),
            None => String::from_str("Status"),
        },
    }
}

fn dot_chars() -> (r: Vec<char>)
    ensures
        r@ == dot_sep(),
{
    let mut r: Vec<char> = Vec::new();
    r.push(' ');
    r.push('\u{b7}');
    r.push(' ');
    proof {
        assert(r@ == dot_sep());
    }
    r
}

/// The sections an exported message adds: nothing for a status line in
/// progress without a title; else its heading, then a command with its
/// output in code blocks, or the text it shows, trimmed, where there is
/// any.
pub open spec fn message_sections(m: MessageView) -> Seq<Seq<char>> {
    if m.kind == ChatMessageKind::Status && !m.complete && m.title is None {
        Seq::empty()
    } else {
        let head = seq!["### "@ + export_heading(m)];
        if m.kind == ChatMessageKind::Command {
            let output = match m.details {
                Some(d) => if trim(d).len() > 0 {
                    seq!["```text"@, trim_end(d), "```"@]
                } else {
                    Seq::empty()
                },
                None => Seq::empty(),
            };
            head + seq!["```sh"@, m.text, "```"@] + output
        } else {
            let t = shown_text(m);
            if trim(t).len() > 0 {
                head + seq![trim(t)]
            } else {
                head
            }
        }
    }
}

/// The sections of an exported transcript's messages, in order.
pub open spec fn transcript_sections(ms: Seq<MessageView>) -> Seq<Seq<char>>
    decreases ms.len(),
{
    if ms.len() == 0 {
        Seq::empty()
    } else {
        transcript_sections(ms.drop_last()) + message_sections(ms.last())
    }
}

/// The lines that list the open inbox questions, in order.
pub open spec fn open_question_lines(items: Seq<InboxView>) -> Seq<Seq<char>>
    decreases items.len(),
{
    if items.len() == 0 {
        Seq::empty()
    } else {
        let rest = open_question_lines(items.drop_last());
        let x = items.last();
        if x.resolved {
            rest
        } else {
            rest.push("- **"@ + x.source + "**: "@ + x.text)
        }
    }
}

/// A transcript exported as Markdown: a title, the transcript (or a note
/// that there is none), the open questions where there are any, the
/// sections separated by blank lines, and a final line feed.
pub open spec fn exported_markdown(ms: Seq<MessageView>, inbox: Seq<InboxView>) -> Seq<char> {
    let body = if ms.len() == 0 {
        seq!["_No messages in this chat yet._"@]
    } else {
        seq!["## Transcript"@] + transcript_sections(ms)
    };
    let qs = open_question_lines(inbox);
    let questions = if qs.len() > 0 {
        seq!["## Open Questions"@] + qs
    } else {
        Seq::empty()
    };
    join(seq!["# MIAWK Chat Export"@] + body + questions, "\n\n"@) + "\n"@
}

fn push_section(sections: &mut Vec<Vec<char>>, v: Vec<char>)
    ensures
        final(sections)@.map_values(|p: Vec<char>| p@) == old(sections)@.map_values(
            |p: Vec<char>| p@,
        ).push(v@),
{
    sections.push(v);
    proof {
        assert(sections@.map_values(|p: Vec<char>| p@) == old(sections)@.map_values(
            |p: Vec<char>| p@,
        ).push(v@));
    }
}

fn message_sections_exec(m: &MessageItem) -> (r: Vec<Vec<char>>)
    ensures
        r@.map_values(|p: Vec<char>| p@) == message_sections(m@),
{
    proof {
        reveal_strlit("### ");
        reveal_strlit("```sh");
        reveal_strlit("```");
        reveal_strlit("```text");
    }
    let mut out: Vec<Vec<char>> = Vec::new();
    if m.kind == ChatMessageKind::Status && !m.complete && m.title.is_none() {
        return out;
    }
    let mut head = chars_of("### ");
    add_chars(&mut head, &chars_of(export_heading_for_message(m).as_str()));
    push_section(&mut out, head);
    if m.kind == ChatMessageKind::Command {
        push_section(&mut out, chars_of("```sh"));
        push_section(&mut out, chars_of(m.text.as_str()));
        push_section(&mut out, chars_of("```"));
        match &m.details {
            Some(d) => {
                let dv = chars_of(d.as_str());
                if trim_chars(&dv).len() > 0 {
                    push_section(&mut out, chars_of("```text"));
                    push_section(&mut out, trim_end_chars(&dv));
                    push_section(&mut out, chars_of("```"));
                }
            },
            None => {},
        }
    } else {
        let t = trim_chars(&chars_of(message_visible_text(m).as_str()));
        if t.len() > 0 {
            push_section(&mut out, t);
        }
    }
    out
}

/// The transcript and the open questions exported as Markdown.
pub fn export_chat_markdown(messages: &Vec<MessageItem>, inbox_items: &Vec<InboxItem>) -> (r: String)
    ensures
        r@ == exported_markdown(message_views(messages@), inbox_views(inbox_items@)),
{
    proof {
        reveal_strlit("# MIAWK Chat Export");
        reveal_strlit("_No messages in this chat yet._");
        reveal_strlit("## Transcript");
        reveal_strlit("## Open Questions");
        reveal_strlit("- **");
        reveal_strlit("**: ");
        reveal_strlit("\n\n");
        reveal_strlit("\n");
    }
    let ghost mv = message_views(messages@);
    let mut sections: Vec<Vec<char>> = Vec::new();
    push_section(&mut sections, chars_of("# MIAWK Chat Export"));
    if messages.len() == 0 {
        push_section(&mut sections, chars_of("_No messages in this chat yet._"));
    } else {
        push_section(&mut sections, chars_of("## Transcript"));
        let ghost start = sections@.map_values(|p: Vec<char>| p@);
        let mut i: usize = 0;
        while i < messages.len()
            invariant
                i <= messages@.len(),
                mv == message_views(messages@),
                sections@.map_values(|p: Vec<char>| p@) == start + transcript_sections(
                    mv.take(i as int),
                ),
            decreases messages@.len() - i,
        {
            proof {
                assert(mv.take(i + 1).drop_last() == mv.take(i as int));
                assert(mv.take(i + 1).last() == messages@[i as int]@);
            }
            let more = message_sections_exec(&messages[i]);
            let ghost before = sections@.map_values(|p: Vec<char>| p@);
            let mut j: usize = 0;
            while j < more.len()
                invariant
                    j <= more@.len(),
                    sections@.map_values(|p: Vec<char>| p@) == before + more@.map_values(
                        |p: Vec<char>| p@,
                    ).take(j as int),
                decreases more@.len() - j,
            {
                push_section(&mut sections, more[j].clone());
                proof {
                    assert(more@.map_values(|p: Vec<char>| p@).take(j + 1) == more@.map_values(
                        |p: Vec<char>| p@,
                    ).take(j as int).push(more@[j as int]@));
                }
                j = j + 1;
            }
            proof {
                assert(more@.map_values(|p: Vec<char>| p@).take(more@.len() as int)
                    == more@.map_values(|p: Vec<char>| p@));
            }
            i = i + 1;
        }
        proof {
            assert(mv.take(messages@.len() as int) == mv);
        }
    }
    let ghost iv = inbox_views(inbox_items@);
    let mut qs: Vec<Vec<char>> = Vec::new();
    let mut k: usize = 0;
    while k < inbox_items.len()
        invariant
            k <= inbox_items@.len(),
            iv == inbox_views(inbox_items@),
            qs@.map_values(|p: Vec<char>| p@) == open_question_lines(iv.take(k as int)),
        decreases inbox_items@.len() - k,
    {
        proof {
            assert(iv.take(k + 1).drop_last() == iv.take(k as int));
            assert(iv.take(k + 1).last() == inbox_items@[k as int]@);
        }
        let item = &inbox_items[k];
        if !item.resolved {
            let mut line = chars_of("- **");
            add_chars(&mut line, &chars_of(item.source.as_str()));
            add_text(&mut line, "**: ");
            add_chars(&mut line, &chars_of(item.text.as_str()));
            push_section(&mut qs, line);
        }
        k = k + 1;
    }
    proof {
        assert(iv.take(inbox_items@.len() as int) == iv);
    }
    if qs.len() > 0 {
        push_section(&mut sections, chars_of("## Open Questions"));
        let ghost before = sections@.map_values(|p: Vec<char>| p@);
        let mut j: usize = 0;
        while j < qs.len()
            invariant
                j <= qs@.len(),
                sections@.map_values(|p: Vec<char>| p@) == before + qs@.map_values(
                    |p: Vec<char>| p@,
                ).take(j as int),
            decreases qs@.len() - j,
        {
            push_section(&mut sections, qs[j].clone());
            proof {
                assert(qs@.map_values(|p: Vec<char>| p@).take(j + 1) == qs@.map_values(
                    |p: Vec<char>| p@,
                ).take(j as int).push(qs@[j as int]@));
            }
            j = j + 1;
        }
        proof {
            assert(qs@.map_values(|p: Vec<char>| p@).take(qs@.len() as int) == qs@.map_values(
                |p: Vec<char>| p@,
            ));
        }
    }
    let mut out = join_chars(&sections, &chars_of("\n\n"));
    out.push('\n');
    proof {
        let body = if mv.len() == 0 {
            seq!["_No messages in this chat yet._"@]
        } else {
            seq!["## Transcript"@] + transcript_sections(mv)
        };
        let ql = open_question_lines(iv);
        let questions = if ql.len() > 0 {
            seq!["## Open Questions"@] + ql
        } else {
            Seq::<Seq<char>>::empty()
        };
        assert(sections@.map_values(|p: Vec<char>| p@) == seq!["# MIAWK Chat Export"@] + body
            + questions);
    }
    string_from(&out)
}

/// The inbox questions that are not resolved, in order.
pub open spec fn still_open(items: Seq<InboxView>) -> Seq<InboxView>
    decreases items.len(),
{
    if items.len() == 0 {
        items
    } else if items.last().resolved {
        still_open(items.drop_last())
    } else {
        still_open(items.drop_last()).push(items.last())
    }
}

proof fn lemma_still_open_lines(items: Seq<InboxView>)
    ensures
        open_question_lines(still_open(items)) == open_question_lines(items),
        (forall|i: int| 0 <= i < items.len() ==> (#[trigger] items[i]).resolved) ==> still_open(items)
            == Seq::<InboxView>::empty(),
    decreases items.len(),
{
    if items.len() > 0 {
        let d = items.drop_last();
        lemma_still_open_lines(d);
        if !items.last().resolved {
            let u = still_open(d);
            assert(u.push(items.last()).drop_last() == u);
        }
        if forall|i: int| 0 <= i < items.len() ==> (#[trigger] items[i]).resolved {
            assert forall|i: int| 0 <= i < d.len() implies (#[trigger] d[i]).resolved by {
                assert(d[i] == items[i]);
            }
            assert(items[items.len() - 1].resolved);
        }
    }
}

/// Only open questions are exported: the export of a transcript and an
/// inbox is that of the transcript and the unresolved questions alone, so
/// a resolved question never appears and, when every question is
/// resolved, there is no section of open questions; and an unresolved
/// question added last ends the export as the line "- **source**: text".
pub proof fn law_export_lists_open_questions(ms: Seq<MessageView>, inbox: Seq<InboxView>, x: InboxView)
    ensures
        exported_markdown(ms, inbox) == exported_markdown(ms, still_open(inbox)),
        (forall|i: int| 0 <= i < inbox.len() ==> (#[trigger] inbox[i]).resolved) ==> exported_markdown(
            ms,
            inbox,
        ) == exported_markdown(ms, Seq::empty()),
        !x.resolved ==> ({
            let r = exported_markdown(ms, inbox.push(x));
            let tail = "- **"@ + x.source + "**: "@ + x.text + "\n"@;
            r.len() >= tail.len() && r.skip(r.len() - tail.len()) == tail
        }),
{
    lemma_still_open_lines(inbox);
    if !x.resolved {
        let items = inbox.push(x);
        assert(items.drop_last() == inbox);
        let line = "- **"@ + x.source + "**: "@ + x.text;
        let qs = open_question_lines(items);
        assert(qs == open_question_lines(inbox).push(line));
        let body = if ms.len() == 0 {
            seq!["_No messages in this chat yet._"@]
        } else {
            seq!["## Transcript"@] + transcript_sections(ms)
        };
        let pre = seq!["# MIAWK Chat Export"@] + body + seq!["## Open Questions"@] + open_question_lines(inbox);
        let parts = seq!["# MIAWK Chat Export"@] + body + (seq!["## Open Questions"@] + qs);
        assert(parts =~= pre.push(line));
        assert(parts.drop_last() == pre);
        assert(pre.len() > 1);
        let r = exported_markdown(ms, items);
        assert(r == join(pre, "\n\n"@) + "\n\n"@ + line + "\n"@);
        let tail = "- **"@ + x.source + "**: "@ + x.text + "\n"@;
        assert(r =~= (join(pre, "\n\n"@) + "\n\n"@) + tail);
        assert(r.skip(r.len() - tail.len()) =~= tail);
    }
}

} // verus!
