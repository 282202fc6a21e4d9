//! Small pieces of what the interface shows: class lists, an agent's
//! accent colour, account titles and the countdown to a usage reset.
use vstd::prelude::*;

use crate::accounts::AccountKind;
use crate::chat::{ChatMessageKind, MessageItem};
use crate::forms::{parse_i64, parsed_i64};
use crate::swarm::{SwarmNodeKind, SwarmNodeStatus};
use crate::text::{
    chars_of, decimal, decimal2, extend_chars, join, join_chars, push_decimal, string_from,
};

verus! {

/// The class list of a transcript message.
pub open spec fn message_classes(kind: ChatMessageKind, has_agent: bool) -> Seq<char> {
    let k = match kind {
        ChatMessageKind::User => "message-user"@,
        ChatMessageKind::Assistant => "message-assistant"@,
        ChatMessageKind::Reasoning => "message-reasoning"@,
        ChatMessageKind::Activity => "message-activity"@,
        ChatMessageKind::Command => "message-command"@,
        ChatMessageKind::Status => "message-status"@,
    };
    "message "@ + k + if has_agent {
        " message-agent"@
    } else {
        Seq::empty()
    }
}

fn append_text(out: &mut Vec<char>, t: &str)
    ensures
        final(out)@ == old(out)@ + t@,
{
    let v = chars_of(t);
    let ghost start = out@;
    for i in 0..v.len()
        invariant
            v@ == t@,
            out@ == start + v@.take(i as int),
    {
        out.push(v[i]);
        proof {
            assert(v@.take(i as int).push(v@[i as int]) == v@.take(i + 1));
        }
    }
    proof {
        assert(v@.take(v@.len() as int) == v@);
    }
}

/// The class list of a transcript message.
pub fn chat_message_class(message: &MessageItem) -> (r: String)
    ensures
        r@ == message_classes(message.kind, message.agent_label is Some),
{
    let mut out = chars_of("message ");
    let k: &str = match message.kind {
        ChatMessageKind::User => "message-user",
        ChatMessageKind::Assistant => "message-assistant",
        ChatMessageKind::Reasoning => "message-reasoning",
        ChatMessageKind::Activity => "message-activity",
        ChatMessageKind::Command => "message-command",
        ChatMessageKind::Status => "message-status",
    };
    append_text(&mut out, k);
    if message.agent_label.is_some() {
        append_text(&mut out, " message-agent");
    }
    proof {
        assert(out@ == message_classes(message.kind, message.agent_label is Some));
    }
    string_from(&out)
}

/// The class list of a canvas node.
pub open spec fn node_classes(kind: SwarmNodeKind, status: SwarmNodeStatus, selected: bool) -> Seq<char> {
    let k = match kind {
        SwarmNodeKind::Brain => "swarm-node-brain"@,
        SwarmNodeKind::Turn => "swarm-node-turn"@,
        SwarmNodeKind::Agent => "swarm-node-agent"@,
        SwarmNodeKind::Activity => "swarm-node-activity"@,
        SwarmNodeKind::Command => "swarm-node-command"@,
    };
    let s = match status {
        SwarmNodeStatus::Idle => "swarm-node-idle"@,
        SwarmNodeStatus::Queued => "swarm-node-queued"@,
        SwarmNodeStatus::Running => "swarm-node-running"@,
        SwarmNodeStatus::Waiting => "swarm-node-waiting"@,
        SwarmNodeStatus::Complete => "swarm-node-complete"@,
        SwarmNodeStatus::Failed => "swarm-node-failed"@,
        SwarmNodeStatus::Interrupted => "swarm-node-interrupted"@,
    };
    "swarm-node "@ + k + " "@ + s + if selected {
        " swarm-node-selected"@
    } else {
        Seq::empty()
    }
}

/// The class list of a canvas node of this kind and status.
pub fn swarm_node_class(kind: SwarmNodeKind, status: SwarmNodeStatus, selected: bool) -> (r: String)
    ensures
        r@ == node_classes(kind, status, selected),
{
    let mut out = chars_of("swarm-node ");
    let k: &str = match kind {
        SwarmNodeKind::Brain => "swarm-node-brain",
        SwarmNodeKind::Turn => "swarm-node-turn",
        SwarmNodeKind::Agent => "swarm-node-agent",
        SwarmNodeKind::Activity => "swarm-node-activity",
        SwarmNodeKind::Command => "swarm-node-command",
    };
    let s: &str = match status {
        SwarmNodeStatus::Idle => "swarm-node-idle",
        SwarmNodeStatus::Queued => "swarm-node-queued",
        SwarmNodeStatus::Running => "swarm-node-running",
        SwarmNodeStatus::Waiting => "swarm-node-waiting",
        SwarmNodeStatus::Complete => "swarm-node-complete",
        SwarmNodeStatus::Failed => "swarm-node-failed",
        SwarmNodeStatus::Interrupted => "swarm-node-interrupted",
    };
    append_text(&mut out, k);
    append_text(&mut out, " ");
    append_text(&mut out, s);
    if selected {
        append_text(&mut out, " swarm-node-selected");
    }
    proof {
        assert(out@ == node_classes(kind, status, selected));
    }
    string_from(&out)
}

/// The UTF-8 bytes of a character.
pub open spec fn utf8_bytes(c: char) -> Seq<nat> {
    let u = c as u32 as nat;
    if u < 0x80 {
        seq![u]
    } else if u < 0x800 {
        seq![0xc0 + u / 64, 0x80 + u % 64]
    } else if u < 0x10000 {
        seq![0xe0 + u / 4096, 0x80 + (u / 64) % 64, 0x80 + u % 64]
    } else {
        seq![0xf0 + u / 262144, 0x80 + (u / 4096) % 64, 0x80 + (u / 64) % 64, 0x80 + u % 64]
    }
}

/// The accent hash of a text: each UTF-8 byte in turn, times 33 plus the
/// byte, kept to 32 bits.
pub open spec fn accent_hash(s: Seq<char>) -> nat
    decreases s.len(),
{
    if s.len() == 0 {
        0
    } else {
        hash_bytes(accent_hash(s.drop_last()), utf8_bytes(s.last()))
    }
}

/// The hash carried on over some bytes.
pub open spec fn hash_bytes(h: nat, bytes: Seq<nat>) -> nat
    decreases bytes.len(),
{
    if bytes.len() == 0 {
        h
    } else {
        (hash_bytes(h, bytes.drop_last()) * 33 + bytes.last()) % 0x1_0000_0000
    }
}

/// The accent colours of agents.
pub open spec fn accent_colours() -> Seq<Seq<char>> {
    seq![
        "255, 146, 196"@,
        "255, 196, 118"@,
        "143, 224, 255"@,
        "168, 255, 188"@,
        "205, 166, 255"@,
        "255, 162, 128"@,
        "138, 190, 255"@,
        "255, 220, 126"@,
    ]
}

fn hash_step(h: u64, b: u64) -> (r: u64)
    requires
        h < 0x1_0000_0000,
        b < 256,
    ensures
        r == (h * 33 + b) % 0x1_0000_0000,
        r < 0x1_0000_0000,
{
    (h * 33 + b) % 0x1_0000_0000
}

proof fn lemma_hash_push(h: nat, bytes: Seq<nat>, b: nat)
    ensures
        hash_bytes(h, bytes.push(b)) == (hash_bytes(h, bytes) * 33 + b) % 0x1_0000_0000,
{
    assert(bytes.push(b).drop_last() == bytes);
}

fn hash_char(h: u64, c: char) -> (r: u64)
    requires
        h < 0x1_0000_0000,
    ensures
        r == hash_bytes(h as nat, utf8_bytes(c)),
        r < 0x1_0000_0000,
{
    let u = c as u32 as u64;
    let ghost n = u as nat;
    let ghost e = Seq::<nat>::empty();
    proof {
        assert(u <= 0x10ffff);
    }
    if u < 0x80 {
        proof {
            lemma_hash_push(h as nat, e, n);
            assert(e.push(n) == utf8_bytes(c));
        }
        hash_step(h, u)
    } else if u < 0x800 {
        let h1 = hash_step(h, 0xc0 + u / 64);
        proof {
            lemma_hash_push(h as nat, e, 0xc0 + n / 64);
            lemma_hash_push(h as nat, e.push(0xc0 + n / 64), 0x80 + n % 64);
            assert(e.push(0xc0 + n / 64).push(0x80 + n % 64) == utf8_bytes(c));
        }
        hash_step(h1, 0x80 + u % 64)
    } else if u < 0x10000 {
        let h1 = hash_step(h, 0xe0 + u / 4096);
        let h2 = hash_step(h1, 0x80 + (u / 64) % 64);
        proof {
            let b0 = 0xe0 + n / 4096;
            let b1 = 0x80 + (n / 64) % 64;
            let b2 = 0x80 + n % 64;
            lemma_hash_push(h as nat, e, b0);
            lemma_hash_push(h as nat, e.push(b0), b1);
            lemma_hash_push(h as nat, e.push(b0).push(b1), b2);
            assert(e.push(b0).push(b1).push(b2) == utf8_bytes(c));
        }
        hash_step(h2, 0x80 + u % 64)
    } else {
        let h1 = hash_step(h, 0xf0 + u / 262144);
        let h2 = hash_step(h1, 0x80 + (u / 4096) % 64);
        let h3 = hash_step(h2, 0x80 + (u / 64) % 64);
        proof {
            let b0 = 0xf0 + n / 262144;
            let b1 = 0x80 + (n / 4096) % 64;
            let b2 = 0x80 + (n / 64) % 64;
            let b3 = 0x80 + n % 64;
            lemma_hash_push(h as nat, e, b0);
            lemma_hash_push(h as nat, e.push(b0), b1);
            lemma_hash_push(h as nat, e.push(b0).push(b1), b2);
            lemma_hash_push(h as nat, e.push(b0).push(b1).push(b2), b3);
            assert(e.push(b0).push(b1).push(b2).push(b3) == utf8_bytes(c));
        }
        hash_step(h3, 0x80 + u % 64)
    }
}

/// The accent colour of an agent, picked by the hash of its label.
pub fn agent_accent_rgb(label: &str) -> (r: &'static str)
    ensures
        r@ == accent_colours()[(accent_hash(label@) % 8) as int],
{
    let v = chars_of(label);
    let mut h: u64 = 0;
    let mut i: usize = 0;
    while i < v.len()
        invariant
            i <= v@.len(),
            v@ == label@,
            h == accent_hash(v@.take(i as int)),
            h < 0x1_0000_0000,
        decreases v@.len() - i,
    {
        proof {
            assert(v@.take(i + 1).drop_last() == v@.take(i as int));
            assert(v@.take(i + 1).last() == v@[i as int]);
        }
        h = hash_char(h, v[i]);
        i = i + 1;
    }
    proof {
        assert(v@.take(v@.len() as int) == v@);
    }
    let colours: [&'static str; 8] = [
        "255, 146, 196",
        "255, 196, 118",
        "143, 224, 255",
        "168, 255, 188",
        "205, 166, 255",
        "255, 162, 128",
        "138, 190, 255",
        "255, 220, 126",
    ];
    let k = (h % 8) as usize;
    proof {
        assert(colours@.map_values(|c: &str| c@) == accent_colours());
        assert(colours@[k as int]@ == accent_colours()[k as int]);
    }
    colours[k]
}

/// The style that tints a message with its agent's accent colour, where
/// the message comes from an agent.
pub open spec fn agent_style(label: Option<Seq<char>>) -> Option<Seq<char>> {
    match label {
        Some(l) => Some("--agent-rgb: "@ + accent_colours()[(accent_hash(l) % 8) as int]),
        None => None,
    }
}

/// The accent style of a message.
pub fn message_agent_style(message: &MessageItem) -> (r: Option<String>)
    ensures
        match r {
            Some(s) => agent_style(
                match message.agent_label {
                    Some(l) => Some(l@),
                    None => None,
                },
            ) == Some(s@),
            None => message.agent_label is None,
        },
{
    match &message.agent_label {
        Some(label) => {
            let mut out = chars_of("--agent-rgb: ");
            let colour = chars_of(agent_accent_rgb(label.as_str()));
            extend_chars(&mut out, &colour);
            Some(string_from(&out))
        },
        None => None,
    }
}

/// How an account is titled: an API key by its masked key, a ChatGPT
/// sign-in by its email, either by its label where that is missing.
pub open spec fn account_heading(
    kind: AccountKind,
    masked_secret: Option<Seq<char>>,
    email: Option<Seq<char>>,
    label: Seq<char>,
) -> Seq<char> {
    let shown = match kind {
        AccountKind::ApiKey => masked_secret,
        AccountKind::Chatgpt => email,
    };
    match shown {
        Some(t) => t,
        None => label,
    }
}

/// How an account is titled.
pub fn account_title(
    kind: AccountKind,
    masked_secret: &Option<String>,
    email: &Option<String>,
    label: &String,
) -> (r: String)
    ensures
        r@ == account_heading(
            kind,
            match masked_secret {
                Some(s) => Some(s@),
                None => None,
            },
            match email {
                Some(s) => Some(s@),
                None => None,
            },
            label@,
        ),
{
    let shown = match kind {
        AccountKind::ApiKey => masked_secret,
        AccountKind::Chatgpt => email,
    };
    match shown {
        Some(t) => t.clone(),
        None => label.clone(),
    }
}

/// What `char::to_uppercase` makes of a character.
pub uninterp spec fn upper_case_of(c: char) -> Seq<char>;

/// `char::to_uppercase` of the standard library, collected: the result
/// depends on the character alone; an ASCII lower-case letter becomes its
/// capital, and any other ASCII character, which has no upper-case mapping,
/// stays as it is.
#[verifier::external_body]
fn upper_case(c: char) -> (r: String)
    ensures
        r@ == upper_case_of(c),
        'a' <= c <= 'z' ==> r@ == seq![((c as u32) - 32) as char],
        (c as u32) < 128 && !('a' <= c <= 'z') ==> r@ == seq![c],
{
    c.to_uppercase().collect::<String>()
}

/// The capital of an ASCII lower-case letter; any other character as it is.
pub open spec fn ascii_upper(c: char) -> char {
    if 'a' <= c <= 'z' {
        ((c as u32) - 32) as char
    } else {
        c
    }
}

/// A label with its first character in upper case.
pub open spec fn titlecased(s: Seq<char>) -> Seq<char> {
    if s.len() == 0 {
        s
    } else {
        upper_case_of(s[0]) + s.skip(1)
    }
}

/// A label with its first character in upper case.
pub fn titlecase_label(value: String) -> (r: String)
    ensures
        r@ == titlecased(value@),
        value@.len() > 0 && (value@[0] as u32) < 128 ==> r@ == seq![ascii_upper(value@[0])]
            + value@.skip(1),
{
    let v = chars_of(value.as_str());
    if v.len() == 0 {
        return value;
    }
    let mut out = chars_of(upper_case(v[0]).as_str());
    let ghost start = out@;
    proof {
        assert(v@[0] == value@[0]);
    }
    let mut i: usize = 1;
    while i < v.len()
        invariant
            1 <= i <= v@.len(),
            out@ == start + v@.subrange(1, i as int),
        decreases v@.len() - i,
    {
        out.push(v[i]);
        proof {
            assert(v@.subrange(1, i as int).push(v@[i as int]) == v@.subrange(1, i + 1));
        }
        i = i + 1;
    }
    proof {
        assert(v@.subrange(1, v@.len() as int) == v@.skip(1));
    }
    string_from(&out)
}

/// What an account's card says under its title: `API` for a key, the
/// plan of a ChatGPT sign-in with its first letter raised, or `Account`.
pub open spec fn account_caption(kind: AccountKind, plan_type: Option<Seq<char>>) -> Seq<char> {
    match kind {
        AccountKind::ApiKey => "API"@,
        AccountKind::Chatgpt => match plan_type {
            Some(p) => titlecased(p),
            None => "Account"@,
        },
    }
}

/// What an account's card says under its title.
pub fn account_subtitle(kind: AccountKind, plan_type: &Option<String>) -> (r: String)
    ensures
        r@ == account_caption(
            kind,
            match plan_type {
                Some(s) => Some(s@),
                None => None,
            },
        ),
{
    proof {
        reveal_strlit("API");
        reveal_strlit("Account");
    }
    match kind {
        AccountKind::ApiKey => String::from_str("API"),
        AccountKind::Chatgpt => match plan_type {
            Some(p) => titlecase_label(p.clone()),
            None => String::from_str("Account"),
        },
    }
}


/// Days, hours, minutes and seconds of a number of seconds.
pub open spec fn countdown_parts(r: nat) -> Seq<nat> {
    seq![r / 86400, (r % 86400) / 3600, (r % 3600) / 60, r % 60]
}

/// Where a countdown starts: its first part that is not zero, or the
/// seconds.
pub open spec fn first_shown(vs: Seq<nat>) -> int {
    if vs[0] != 0 {
        0
    } else if vs[1] != 0 {
        1
    } else if vs[2] != 0 {
        2
    } else {
        3
    }
}

/// The countdown to a usage reset: the seconds left (none below zero) as
/// two-digit parts joined by colons, from the first part that is not zero;
/// dashes where the reset time is unknown or not a whole number.
pub open spec fn countdown_text(reset_at: Option<Seq<char>>, now: i64) -> Seq<char> {
    match reset_at {
        None => "--:--:--:--"@,
        Some(t) => match parsed_i64(t) {
            None => "--:--:--:--"@,
            Some(at) => {
                let d = at - now;
                let clamped = if d > i64::MAX {
                    i64::MAX as int
                } else {
                    d
                };
                let remaining: nat = if clamped > 0 {
                    clamped as nat
                } else {
                    0
                };
                let vs = countdown_parts(remaining);
                join(vs.skip(first_shown(vs)).map_values(|v: nat| decimal2(v)), ":"@)
            },
        },
    }
}

/// The countdown to a usage reset.
pub fn reset_countdown(reset_at: Option<&str>, now_epoch: i64) -> (r: String)
    ensures
        r@ == countdown_text(
            match reset_at {
                Some(t) => Some(t@),
                None => None,
            },
            now_epoch,
        ),
{
    proof {
        reveal_strlit("--:--:--:--");
        reveal_strlit(":");
    }
    let text = match reset_at {
        Some(t) => t,
        None => return String::from_str("--:--:--:--"),
    };
    let at = match parse_i64(text) {
        Some(a) => a,
        None => return String::from_str("--:--:--:--"),
    };
    let diff: i64 = if now_epoch < 0 && at > i64::MAX + now_epoch {
        i64::MAX
    } else if now_epoch > 0 && at < i64::MIN + now_epoch {
        i64::MIN
    } else {
        at - now_epoch
    };
    let remaining: u64 = if diff > 0 {
        diff as u64
    } else {
        0
    };
    let values: [u64; 4] = [
        remaining / 86_400,
        (remaining % 86_400) / 3_600,
        (remaining % 3_600) / 60,
        remaining % 60,
    ];
    let ghost vs = countdown_parts(remaining as nat);
    proof {
        assert(values@.map_values(|v: u64| v as nat) == vs);
    }
    let start: usize = if values[0] != 0 {
        0
    } else if values[1] != 0 {
        1
    } else if values[2] != 0 {
        2
    } else {
        3
    };
    let mut parts: Vec<Vec<char>> = Vec::new();
    let mut i: usize = start;
    while i < 4
        invariant
            start <= i <= 4,
            start as int == first_shown(vs),
            vs == countdown_parts(remaining as nat),
            values@.map_values(|v: u64| v as nat) == vs,
            parts@.map_values(|p: Vec<char>| p@) == vs.subrange(start as int, i as int).map_values(
                |v: nat| decimal2(v),
            ),
        decreases 4 - i,
    {
        let mut p: Vec<char> = Vec::new();
        if values[i] < 10 {
            p.push('0');
        }
        push_decimal(&mut p, values[i]);
        proof {
            assert(values@[i as int] as nat == vs[i as int]);
            assert(p@ == decimal2(vs[i as int]));
            assert(vs.subrange(start as int, i + 1) == vs.subrange(start as int, i as int).push(
                vs[i as int],
            ));
        }
        let ghost before = parts@;
        parts.push(p);
        proof {
            assert(parts@.map_values(|p: Vec<char>| p@) == before.map_values(|p: Vec<char>| p@).push(
                p@,
            ));
        }
        i = i + 1;
    }
    proof {
        assert(vs.subrange(start as int, 4) == vs.skip(start as int));
    }
    let joined = join_chars(&parts, &chars_of(":"));
    string_from(&joined)
}

} // verus!
