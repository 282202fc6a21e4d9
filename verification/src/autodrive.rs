//! Auto Drive: after each finished turn, whether to go on, and with which
//! supervising prompt: the stop rules, the loops it watches for, and the
//! text of the prompt.
use vstd::prelude::*;

use crate::chat::{
    extract_auto_drive_stop_reason, message_views, stop_reason, strip_assistant_protocol_lines,
    visible_text, ChatMessageKind, InboxItem, MessageItem, MessageView,
};
use crate::forms::{limit_of, optional_limit_value, AutoDriveMode};
use crate::text::{
    chars_eq, chars_of, decimal, has_sub, has_sub_exec, join, join_chars, lower, lower_chars,
    push_decimal, string_from, trim, trim_chars, words, words_of,
};

verus! {

/// The number of bytes a character takes in UTF-8.
pub open spec fn utf8_width(c: char) -> nat {
    let u = c as u32;
    if u < 0x80 {
        1
    } else if u < 0x800 {
        2
    } else if u < 0x10000 {
        3
    } else {
        4
    }
}

/// The number of bytes a text takes in UTF-8 (`str::len`).
pub open spec fn byte_len(s: Seq<char>) -> nat
    decreases s.len(),
{
    if s.len() == 0 {
        0
    } else {
        byte_len(s.drop_last()) + utf8_width(s.last())
    }
}

/// Whether byte offset `b` falls between two characters of the text.
pub open spec fn at_boundary(s: Seq<char>, b: nat) -> bool {
    exists|k: int| 0 <= k <= s.len() && byte_len(s.take(k)) == b
}

/// The number of characters that the first `b` bytes hold, where `b` falls
/// between characters.
pub open spec fn chars_in_bytes(s: Seq<char>, b: nat) -> int {
    choose|k: int| 0 <= k <= s.len() && byte_len(s.take(k)) == b
}

fn char_width(c: char) -> (w: usize)
    ensures
        w == utf8_width(c),
{
    let u = c as u32;
    if u < 0x80 {
        1
    } else if u < 0x800 {
        2
    } else if u < 0x10000 {
        3
    } else {
        4
    }
}

proof fn lemma_byte_len_grows(s: Seq<char>, k: int)
    requires
        0 <= k < s.len(),
    ensures
        byte_len(s.take(k + 1)) == byte_len(s.take(k)) + utf8_width(s[k]),
        byte_len(s.take(k)) < byte_len(s.take(k + 1)),
{
    assert(s.take(k + 1).drop_last() == s.take(k));
}

proof fn lemma_byte_len_mono(s: Seq<char>, j: int, k: int)
    requires
        0 <= j <= k <= s.len(),
    ensures
        byte_len(s.take(j)) <= byte_len(s.take(k)),
        j < k ==> byte_len(s.take(j)) < byte_len(s.take(k)),
    decreases k - j,
{
    if j < k {
        lemma_byte_len_mono(s, j, k - 1);
        lemma_byte_len_grows(s, k - 1);
    }
}

/// The byte length of the characters and how many of them the first `b`
/// bytes hold, where `b` falls between characters.
fn byte_cut(v: &Vec<char>, b: usize) -> (r: (usize, Option<usize>))
    requires
        byte_len(v@) <= usize::MAX,
    ensures
        r.0 == byte_len(v@),
        match r.1 {
            Some(k) => k <= v@.len() && byte_len(v@.take(k as int)) == b,
            None => !at_boundary(v@, b as nat),
        },
{
    let mut total: usize = 0;
    let mut cut: Option<usize> = None;
    let mut i: usize = 0;
    proof {
        assert(v@.take(0).len() == 0);
    }
    while i < v.len()
        invariant
            i <= v@.len(),
            byte_len(v@) <= usize::MAX,
            total == byte_len(v@.take(i as int)),
            match cut {
                Some(k) => k <= i && byte_len(v@.take(k as int)) == b,
                None => forall|k: int| 0 <= k < i ==> byte_len(#[trigger] v@.take(k)) != b,
            },
        decreases v@.len() - i,
    {
        if cut.is_none() && total == b {
            cut = Some(i);
        }
        proof {
            lemma_byte_len_grows(v@, i as int);
            lemma_byte_len_mono(v@, i + 1, v@.len() as int);
            assert(v@.take(v@.len() as int) == v@);
        }
        total = total + char_width(v[i]);
        i = i + 1;
    }
    proof {
        assert(v@.take(v@.len() as int) == v@);
    }
    if cut.is_none() && total == b {
        cut = Some(i);
    }
    proof {
        if cut is None {
            assert forall|k: int| 0 <= k <= v@.len() implies byte_len(#[trigger] v@.take(k)) != b by {
                if k == v@.len() {
                    assert(v@.take(k) == v@);
                }
            }
        }
    }
    (total, cut)
}

/// An assistant text as Auto Drive compares it: its visible text, words
/// joined by single spaces, in ASCII lower case.
pub open spec fn normalized(text: Seq<char>) -> Seq<char> {
    lower(join(words(visible_text(text)), seq![' ']))
}

/// An assistant text as Auto Drive compares it.
pub fn normalized_auto_drive_text(text: &str) -> (r: Vec<char>)
    ensures
        r@ == normalized(text@),
{
    let clean = strip_assistant_protocol_lines(text);
    let ws = words_of(&chars_of(clean.as_str()));
    let sep: Vec<char> = vec![' '];
    proof {
        assert(sep@ == seq![' ']);
    }
    let joined = join_chars(&ws, &sep);
    lower_chars(&joined)
}

/// The texts that mark a creative writing request.
pub open spec fn creative_needles() -> Seq<Seq<char>> {
    seq![
        "write me a story"@,
        "write a story"@,
        "continue the story"@,
        "story"@,
        "scene"@,
        "chapter"@,
        "poem"@,
        "novel"@,
        "short story"@,
    ]
}

/// The texts that mark an answer that talks about the work instead of
/// doing it.
pub open spec fn meta_needles() -> Seq<Seq<char>> {
    seq![
        "highest-value next step"@,
        "single highest-value next step"@,
        "best move is to"@,
        "continue the story rather than review it"@,
        "produce the next story scene now"@,
        "the requested story is complete"@,
        "if you'd like, i can also write"@,
        "if you want, i can also write"@,
        "the story is complete"@,
    ]
}

/// Whether the text holds one of the needles.
pub open spec fn holds_any(text: Seq<char>, needles: Seq<Seq<char>>) -> bool {
    exists|i: int| 0 <= i < needles.len() && has_sub(text, #[trigger] needles[i])
}

fn holds_any_exec(text: &Vec<char>, needles: &Vec<&str>) -> (b: bool)
    ensures
        b == holds_any(text@, needles@.map_values(|n: &str| n@)),
{
    let ghost ns = needles@.map_values(|n: &str| n@);
    let mut i: usize = 0;
    while i < needles.len()
        invariant
            i <= needles@.len(),
            ns == needles@.map_values(|n: &str| n@),
            forall|j: int| 0 <= j < i ==> !has_sub(text@, #[trigger] ns[j]),
        decreases needles@.len() - i,
    {
        let n = chars_of(needles[i]);
        proof {
            assert(n@ == ns[i as int]);
        }
        if has_sub_exec(text, &n) {
            return true;
        }
        i = i + 1;
    }
    false
}

/// Whether the user asked for creative writing.
pub fn is_creative_writing_request(text: &str) -> (b: bool)
    ensures
        b == holds_any(lower(text@), creative_needles()),
{
    let needles: Vec<&str> = vec![
        "write me a story",
        "write a story",
        "continue the story",
        "story",
        "scene",
        "chapter",
        "poem",
        "novel",
        "short story",
    ];
    proof {
        reveal_strlit("write me a story");
        reveal_strlit("write a story");
        reveal_strlit("continue the story");
        reveal_strlit("story");
        reveal_strlit("scene");
        reveal_strlit("chapter");
        reveal_strlit("poem");
        reveal_strlit("novel");
        reveal_strlit("short story");
        assert(needles@.map_values(|n: &str| n@) == creative_needles());
    }
    holds_any_exec(&lower_chars(&chars_of(text)), &needles)
}

/// Whether an answer talks about the next step instead of taking it.
pub fn is_auto_drive_meta_response(text: &str) -> (b: bool)
    ensures
        b == holds_any(normalized(text@), meta_needles()),
{
    let needles: Vec<&str> = vec![
        "highest-value next step",
        "single highest-value next step",
        "best move is to",
        "continue the story rather than review it",
        "produce the next story scene now",
        "the requested story is complete",
        "if you'd like, i can also write",
        "if you want, i can also write",
        "the story is complete",
    ];
    proof {
        reveal_strlit("highest-value next step");
        reveal_strlit("single highest-value next step");
        reveal_strlit("best move is to");
        reveal_strlit("continue the story rather than review it");
        reveal_strlit("produce the next story scene now");
        reveal_strlit("the requested story is complete");
        reveal_strlit("if you'd like, i can also write");
        reveal_strlit("if you want, i can also write");
        reveal_strlit("the story is complete");
        assert(needles@.map_values(|n: &str| n@) == meta_needles());
    }
    holds_any_exec(&normalized_auto_drive_text(text), &needles)
}

/// Whether a message is a finished assistant answer.
pub open spec fn finished_answer(m: MessageView) -> bool {
    m.kind == ChatMessageKind::Assistant && m.complete
}

/// The positions of the last `count` finished answers, newest first.
pub open spec fn recent_answers(s: Seq<MessageView>, count: nat) -> Seq<int>
    decreases s.len(),
{
    if s.len() == 0 || count == 0 {
        Seq::empty()
    } else if finished_answer(s.last()) {
        seq![s.len() - 1] + recent_answers(s.drop_last(), (count - 1) as nat)
    } else {
        recent_answers(s.drop_last(), count)
    }
}

proof fn lemma_recent_answers_bounds(s: Seq<MessageView>, count: nat)
    ensures
        recent_answers(s, count).len() <= count,
        forall|i: int|
            0 <= i < recent_answers(s, count).len() ==> 0 <= #[trigger] recent_answers(s, count)[i]
                < s.len() && finished_answer(s[recent_answers(s, count)[i]]),
    decreases s.len(),
{
    if s.len() > 0 && count > 0 {
        if finished_answer(s.last()) {
            lemma_recent_answers_bounds(s.drop_last(), (count - 1) as nat);
            let r = recent_answers(s.drop_last(), (count - 1) as nat);
            assert forall|i: int|
                0 <= i < recent_answers(s, count).len() implies 0 <= #[trigger] recent_answers(
                s,
                count,
            )[i] < s.len() && finished_answer(s[recent_answers(s, count)[i]]) by {
                if i > 0 {
                    assert(recent_answers(s, count)[i] == r[i - 1]);
                    assert(s[r[i - 1]] == s.drop_last()[r[i - 1]]);
                }
            }
        } else {
            lemma_recent_answers_bounds(s.drop_last(), count);
            let r = recent_answers(s.drop_last(), count);
            assert forall|i: int|
                0 <= i < recent_answers(s, count).len() implies 0 <= #[trigger] recent_answers(
                s,
                count,
            )[i] < s.len() && finished_answer(s[recent_answers(s, count)[i]]) by {
                assert(s[r[i]] == s.drop_last()[r[i]]);
            }
        }
    }
}

/// The positions of the last two finished answers, newest first.
fn last_two_answers(items: &Vec<MessageItem>) -> (r: Vec<usize>)
    ensures
        r@.map_values(|i: usize| i as int) == recent_answers(message_views(items@), 2),
{
    let ghost v = message_views(items@);
    let mut out: Vec<usize> = Vec::new();
    let mut i: usize = items.len();
    let mut left: usize = 2;
    proof {
        assert(v.take(v.len() as int) == v);
    }
    while i > 0 && left > 0
        invariant
            i <= items@.len(),
            v == message_views(items@),
            left <= 2,
            out@.map_values(|i: usize| i as int) + recent_answers(v.take(i as int), left as nat)
                == recent_answers(v, 2),
        decreases i,
    {
        let m = &items[i - 1];
        let ghost t = v.take(i as int);
        proof {
            assert(t.drop_last() == v.take(i - 1));
            assert(t.last() == m@);
        }
        if m.kind == ChatMessageKind::Assistant && m.complete {
            let ghost before = out@;
            out.push(i - 1);
            proof {
                assert(out@.map_values(|i: usize| i as int) == before.map_values(|i: usize| i as int)
                    + seq![i - 1]);
            }
            left = left - 1;
        }
        i = i - 1;
    }
    proof {
        let t = v.take(i as int);
        assert(recent_answers(t, left as nat) == Seq::<int>::empty());
    }
    out
}

/// The text of the last finished message from the user, if there is one.
pub open spec fn last_user_text(s: Seq<MessageView>) -> Option<Seq<char>>
    decreases s.len(),
{
    if s.len() == 0 {
        None
    } else if s.last().kind == ChatMessageKind::User && s.last().complete {
        Some(s.last().text)
    } else {
        last_user_text(s.drop_last())
    }
}

/// The text of the last finished message from the user.
pub fn last_completed_user_message(messages: &Vec<MessageItem>) -> (r: Option<String>)
    ensures
        match r {
            Some(t) => last_user_text(message_views(messages@)) == Some(t@),
            None => last_user_text(message_views(messages@)) is None,
        },
{
    let ghost v = message_views(messages@);
    let mut i: usize = messages.len();
    proof {
        assert(v.take(v.len() as int) == v);
    }
    while i > 0
        invariant
            i <= messages@.len(),
            v == message_views(messages@),
            last_user_text(v.take(i as int)) == last_user_text(v),
        decreases i,
    {
        let m = &messages[i - 1];
        proof {
            assert(v.take(i as int).drop_last() == v.take(i - 1));
            assert(v.take(i as int).last() == m@);
        }
        if m.kind == ChatMessageKind::User && m.complete {
            return Some(m.text.clone());
        }
        i = i - 1;
    }
    None
}

/// The number of questions still open in the inbox.
pub open spec fn open_question_count(s: Seq<InboxItem>) -> nat
    decreases s.len(),
{
    if s.len() == 0 {
        0
    } else {
        open_question_count(s.drop_last()) + if s.last().resolved {
            0nat
        } else {
            1nat
        }
    }
}

/// The number of questions still open in the inbox.
pub fn open_questions(items: &Vec<InboxItem>) -> (n: usize)
    ensures
        n == open_question_count(items@),
{
    let mut n: usize = 0;
    let mut i: usize = 0;
    while i < items.len()
        invariant
            i <= items@.len(),
            n == open_question_count(items@.take(i as int)),
            n <= i,
        decreases items@.len() - i,
    {
        proof {
            assert(items@.take(i + 1).drop_last() == items@.take(i as int));
        }
        if !items[i].resolved {
            n = n + 1;
        }
        i = i + 1;
    }
    proof {
        assert(items@.take(items@.len() as int) == items@);
    }
    n
}


/// The pieces of a text between the blank-line separators `\n\n`, read
/// from the front (`str::split("\n\n")`).
pub open spec fn paragraph_pieces(s: Seq<char>) -> Seq<Seq<char>>
    decreases s.len(),
{
    if s.len() == 0 {
        seq![Seq::empty()]
    } else if s.len() >= 2 && s[0] == '\n' && s[1] == '\n' {
        seq![Seq::empty()] + paragraph_pieces(s.skip(2))
    } else {
        let r = paragraph_pieces(s.skip(1));
        r.update(0, seq![s[0]] + r[0])
    }
}

proof fn lemma_paragraph_pieces_nonempty(s: Seq<char>)
    ensures
        paragraph_pieces(s).len() >= 1,
    decreases s.len(),
{
    if s.len() >= 2 && s[0] == '\n' && s[1] == '\n' {
        lemma_paragraph_pieces_nonempty(s.skip(2));
    } else if s.len() > 0 {
        lemma_paragraph_pieces_nonempty(s.skip(1));
    }
}

/// The pieces found so far and the piece still open, as one list.
pub open spec fn with_open_piece(done: Seq<Seq<char>>, cur: Seq<char>, rest: Seq<Seq<char>>) -> Seq<
    Seq<char>,
> {
    done + rest.update(0, cur + rest[0])
}

fn paragraphs_of(v: &Vec<char>) -> (r: Vec<Vec<char>>)
    ensures
        r@.map_values(|p: Vec<char>| p@) == paragraph_pieces(v@),
{
    let n = v.len();
    let mut done: Vec<Vec<char>> = Vec::new();
    let mut cur: Vec<char> = Vec::new();
    let mut i: usize = 0;
    proof {
        assert(v@.skip(0) == v@);
        lemma_paragraph_pieces_nonempty(v@);
        assert(Seq::<char>::empty() + paragraph_pieces(v@)[0] == paragraph_pieces(v@)[0]);
        assert(paragraph_pieces(v@).update(0, paragraph_pieces(v@)[0]) == paragraph_pieces(v@));
    }
    while i < n
        invariant
            n == v@.len(),
            i <= n,
            with_open_piece(
                done@.map_values(|p: Vec<char>| p@),
                cur@,
                paragraph_pieces(v@.skip(i as int)),
            ) == paragraph_pieces(v@),
        decreases n - i,
    {
        let ghost rest = v@.skip(i as int);
        let ghost dv = done@.map_values(|p: Vec<char>| p@);
        proof {
            lemma_paragraph_pieces_nonempty(rest);
        }
        if i + 1 < n && v[i] == '\n' && v[i + 1] == '\n' {
            proof {
                assert(rest[0] == '\n' && rest[1] == '\n');
                assert(rest.skip(2) == v@.skip(i + 2));
                lemma_paragraph_pieces_nonempty(rest.skip(2));
                let tail = paragraph_pieces(rest.skip(2));
                assert(paragraph_pieces(rest) == seq![Seq::<char>::empty()] + tail);
                assert(with_open_piece(dv, cur@, paragraph_pieces(rest)) == with_open_piece(
                    dv.push(cur@),
                    Seq::empty(),
                    tail,
                )) by {
                    assert(Seq::<char>::empty() + tail[0] == tail[0]);
                    assert(tail.update(0, tail[0]) == tail);
                    assert(cur@ + Seq::<char>::empty() == cur@);
                }
            }
            let piece = cur;
            cur = Vec::new();
            done.push(piece);
            proof {
                assert(done@.map_values(|p: Vec<char>| p@) == dv.push(piece@));
            }
            i = i + 2;
        } else {
            let c = v[i];
            proof {
                assert(rest[0] == c);
                assert(rest.skip(1) == v@.skip(i + 1));
                lemma_paragraph_pieces_nonempty(rest.skip(1));
                let tail = paragraph_pieces(rest.skip(1));
                assert(!(rest.len() >= 2 && rest[0] == '\n' && rest[1] == '\n'));
                assert(paragraph_pieces(rest) == tail.update(0, seq![c] + tail[0]));
                assert(cur@ + (seq![c] + tail[0]) == cur@.push(c) + tail[0]);
            }
            cur.push(c);
            i = i + 1;
        }
    }
    proof {
        assert(v@.skip(n as int) == Seq::<char>::empty());
        assert(cur@ + Seq::<char>::empty() == cur@);
    }
    let ghost dv = done@.map_values(|p: Vec<char>| p@);
    done.push(cur);
    proof {
        assert(done@.map_values(|p: Vec<char>| p@) == dv.push(cur@));
        assert(seq![Seq::<char>::empty()].update(0, cur@ + Seq::<char>::empty()) == seq![cur@]);
    }
    done
}

/// The paragraphs of a text: its blank-line separated pieces, trimmed,
/// the empty ones left out.
pub open spec fn paragraphs(s: Seq<char>) -> Seq<Seq<char>> {
    paragraph_pieces(s).filter_map(
        |p: Seq<char>|
            if trim(p).len() > 0 {
                Some(trim(p))
            } else {
                None
            },
    )
}

/// Whether the end of the visible text can be cut where Auto Drive cuts it:
/// it has two paragraphs, or fits in 700 bytes, or its last 700 bytes start
/// between characters.
pub open spec fn frontier_cuttable(text: Seq<char>) -> bool {
    let clean = visible_text(text);
    paragraphs(clean).len() >= 2 || byte_len(clean) <= 700 || at_boundary(
        clean,
        (byte_len(clean) - 700) as nat,
    )
}

/// Where the work of an answer stops: its last two paragraphs, or else its
/// last 700 bytes, trimmed.
pub open spec fn frontier(text: Seq<char>) -> Seq<char> {
    let clean = visible_text(text);
    let ps = paragraphs(clean);
    if ps.len() >= 2 {
        ps[ps.len() - 2] + "\n\n"@ + ps[ps.len() - 1]
    } else if byte_len(clean) > 700 {
        trim(clean.skip(chars_in_bytes(clean, (byte_len(clean) - 700) as nat)))
    } else {
        trim(clean)
    }
}

fn trimmed_paragraphs(v: &Vec<char>) -> (r: Vec<Vec<char>>)
    ensures
        r@.map_values(|p: Vec<char>| p@) == paragraphs(v@),
{
    let pieces = paragraphs_of(v);
    let ghost pv = pieces@.map_values(|p: Vec<char>| p@);
    let ghost f = |p: Seq<char>|
        if trim(p).len() > 0 {
            Some(trim(p))
        } else {
            None
        };
    let mut out: Vec<Vec<char>> = Vec::new();
    let mut i: usize = 0;
    while i < pieces.len()
        invariant
            i <= pieces@.len(),
            pv == pieces@.map_values(|p: Vec<char>| p@),
            pv == paragraph_pieces(v@),
            f == (|p: Seq<char>|
                if trim(p).len() > 0 {
                    Some(trim(p))
                } else {
                    None
                }),
            out@.map_values(|p: Vec<char>| p@) == pv.take(i as int).filter_map(f),
        decreases pieces@.len() - i,
    {
        proof {
            pv.lemma_filter_map_take_succ(f, i as int);
            assert(pv[i as int] == pieces@[i as int]@);
        }
        let t = trim_chars(&pieces[i]);
        if t.len() > 0 {
            let ghost before = out@;
            out.push(t);
            proof {
                assert(out@.map_values(|p: Vec<char>| p@) == before.map_values(|p: Vec<char>| p@)
                    + seq![t@]);
            }
        }
        i = i + 1;
    }
    proof {
        assert(pv.take(pieces@.len() as int) == pv);
    }
    out
}

fn append_chars(out: &mut Vec<char>, more: &Vec<char>)
    ensures
        final(out)@ == old(out)@ + more@,
{
    let ghost start = out@;
    for i in 0..more.len()
        invariant
            out@ == start + more@.take(i as int),
    {
        out.push(more[i]);
        proof {
            assert(more@.take(i as int).push(more@[i as int]) == more@.take(i + 1));
        }
    }
    proof {
        assert(more@.take(more@.len() as int) == more@);
    }
}

proof fn lemma_chars_in_bytes(s: Seq<char>, b: nat, k: int)
    requires
        0 <= k <= s.len(),
        byte_len(s.take(k)) == b,
    ensures
        chars_in_bytes(s, b) == k,
{
    let c = chars_in_bytes(s, b);
    assert(0 <= c <= s.len() && byte_len(s.take(c)) == b);
    if c < k {
        lemma_byte_len_mono(s, c, k);
    } else if c > k {
        lemma_byte_len_mono(s, k, c);
    }
}

/// Whether the end of an answer can be cut where Auto Drive cuts it.
pub fn frontier_is_cuttable(text: &str) -> (b: bool)
    requires
        byte_len(visible_text(text@)) <= usize::MAX,
    ensures
        b == frontier_cuttable(text@),
{
    let clean = chars_of(strip_assistant_protocol_lines(text).as_str());
    let ps = trimmed_paragraphs(&clean);
    if ps.len() >= 2 {
        return true;
    }
    let total = byte_total(&clean);
    if total <= 700 {
        return true;
    }
    let (_, cut) = byte_cut(&clean, total - 700);
    cut.is_some()
}

fn byte_total(v: &Vec<char>) -> (n: usize)
    requires
        byte_len(v@) <= usize::MAX,
    ensures
        n == byte_len(v@),
{
    let (total, _) = byte_cut(v, 0);
    total
}


fn push_text(out: &mut Vec<char>, t: &str)
    ensures
        final(out)@ == old(out)@ + t@,
{
    let v = chars_of(t);
    append_chars(out, &v);
}

fn tail_from(v: &Vec<char>, k: usize) -> (r: Vec<char>)
    requires
        k <= v@.len(),
    ensures
        r@ == v@.skip(k as int),
{
    let mut out: Vec<char> = Vec::new();
    let mut i = k;
    while i < v.len()
        invariant
            k <= i <= v@.len(),
            out@ == v@.subrange(k as int, i as int),
        decreases v@.len() - i,
    {
        out.push(v[i]);
        proof {
            assert(v@.subrange(k as int, i as int).push(v@[i as int]) == v@.subrange(
                k as int,
                i + 1,
            ));
        }
        i = i + 1;
    }
    proof {
        assert(v@.subrange(k as int, v@.len() as int) == v@.skip(k as int));
    }
    out
}

fn head_to(v: &Vec<char>, k: usize) -> (r: Vec<char>)
    requires
        k <= v@.len(),
    ensures
        r@ == v@.take(k as int),
{
    let mut out: Vec<char> = Vec::new();
    let mut i: usize = 0;
    while i < k
        invariant
            i <= k <= v@.len(),
            out@ == v@.take(i as int),
        decreases k - i,
    {
        out.push(v[i]);
        proof {
            assert(v@.take(i as int).push(v@[i as int]) == v@.take(i + 1));
        }
        i = i + 1;
    }
    out
}

/// Where the work of an answer stops.
pub fn auto_drive_frontier_excerpt(text: &str) -> (r: String)
    requires
        byte_len(visible_text(text@)) <= usize::MAX,
        frontier_cuttable(text@),
    ensures
        r@ == frontier(text@),
{
    let clean = chars_of(strip_assistant_protocol_lines(text).as_str());
    let ps = trimmed_paragraphs(&clean);
    let n = ps.len();
    if n >= 2 {
        let mut out = ps[n - 2].clone();
        push_text(&mut out, "\n\n");
        append_chars(&mut out, &ps[n - 1]);
        proof {
            assert(ps@[n - 2]@ == paragraphs(clean@)[n - 2]);
            assert(ps@[n - 1]@ == paragraphs(clean@)[n - 1]);
        }
        return string_from(&out);
    }
    let total = byte_total(&clean);
    if total > 700 {
        match byte_cut(&clean, total - 700).1 {
            Some(k) => {
                proof {
                    lemma_chars_in_bytes(clean@, (total - 700) as nat, k as int);
                }
                string_from(&trim_chars(&tail_from(&clean, k)))
            },
            None => {
                proof {
                    assert(false);
                }
                String::new()
            },
        }
    } else {
        string_from(&trim_chars(&clean))
    }
}

/// The visible result of an answer as the supervising prompt quotes it:
/// trimmed, and cut after 900 bytes with `...` where it is longer.
pub open spec fn quoted_result(text: Seq<char>) -> Seq<char> {
    let e = trim(visible_text(text));
    if byte_len(e) > 900 {
        e.take(chars_in_bytes(e, 900)) + "..."@
    } else {
        e
    }
}

/// Whether the visible result can be cut where the prompt cuts it.
pub open spec fn result_cuttable(text: Seq<char>) -> bool {
    let e = trim(visible_text(text));
    byte_len(e) <= 900 || at_boundary(e, 900)
}

fn quoted_result_exec(text: &str) -> (r: Vec<char>)
    requires
        byte_len(trim(visible_text(text@))) <= usize::MAX,
        result_cuttable(text@),
    ensures
        r@ == quoted_result(text@),
{
    let e = trim_chars(&chars_of(strip_assistant_protocol_lines(text).as_str()));
    let (total, cut) = byte_cut(&e, 900);
    if total > 900 {
        match cut {
            Some(k) => {
                proof {
                    lemma_chars_in_bytes(e@, 900, k as int);
                }
                let mut out = head_to(&e, k);
                push_text(&mut out, "...");
                out
            },
            None => {
                proof {
                    assert(false);
                }
                Vec::new()
            },
        }
    } else {
        e
    }
}

/// Whether the first 180 bytes of the newest answer can be cut off where
/// the replay check cuts them.
pub open spec fn replay_cuttable(text: Seq<char>) -> bool {
    let n = normalized(text);
    byte_len(n) < 180 || at_boundary(n, 180)
}

/// The normalized texts of the finished answers, in order.
pub open spec fn answer_texts(s: Seq<MessageView>) -> Seq<Seq<char>> {
    s.filter_map(
        |m: MessageView|
            if finished_answer(m) {
                Some(normalized(m.text))
            } else {
                None
            },
    )
}

/// Whether an answer repeats earlier text: the first 180 bytes of its
/// normalized text occur in an earlier finished answer (the last finished
/// answer of the transcript not counted).
pub open spec fn replays(text: Seq<char>, s: Seq<MessageView>) -> bool {
    let n = normalized(text);
    if byte_len(n) < 180 {
        false
    } else {
        let prefix = n.take(chars_in_bytes(n, 180));
        let h = answer_texts(s);
        let prior = if h.len() > 0 {
            h.drop_last()
        } else {
            h
        };
        replay_hit(prior, prefix)
    }
}

/// Whether one of the earlier texts is non-empty and holds the prefix.
pub open spec fn replay_hit(prior: Seq<Seq<char>>, prefix: Seq<char>) -> bool {
    exists|i: int| 0 <= i < prior.len() && prior[i].len() > 0 && has_sub(#[trigger] prior[i], prefix)
}

/// Whether the answer repeats earlier text of the transcript.
pub fn appears_to_replay_existing_text(last_text: &str, snapshot: &Vec<MessageItem>) -> (b: bool)
    requires
        byte_len(normalized(last_text@)) <= usize::MAX,
        replay_cuttable(last_text@),
    ensures
        b == replays(last_text@, message_views(snapshot@)),
{
    let n = normalized_auto_drive_text(last_text);
    let (total, cut) = byte_cut(&n, 180);
    if total < 180 {
        return false;
    }
    let k = match cut {
        Some(k) => k,
        None => {
            proof {
                assert(false);
            }
            return false;
        },
    };
    proof {
        lemma_chars_in_bytes(n@, 180, k as int);
    }
    let prefix = head_to(&n, k);
    let ghost v = message_views(snapshot@);
    let ghost f = |m: MessageView|
        if finished_answer(m) {
            Some(normalized(m.text))
        } else {
            None
        };
    let mut history: Vec<Vec<char>> = Vec::new();
    let mut i: usize = 0;
    while i < snapshot.len()
        invariant
            i <= snapshot@.len(),
            v == message_views(snapshot@),
            f == (|m: MessageView|
                if finished_answer(m) {
                    Some(normalized(m.text))
                } else {
                    None
                }),
            history@.map_values(|p: Vec<char>| p@) == v.take(i as int).filter_map(f),
        decreases snapshot@.len() - i,
    {
        proof {
            v.lemma_filter_map_take_succ(f, i as int);
            assert(v[i as int] == snapshot@[i as int]@);
        }
        let m = &snapshot[i];
        if m.kind == ChatMessageKind::Assistant && m.complete {
            let t = normalized_auto_drive_text(m.text.as_str());
            let ghost before = history@;
            history.push(t);
            proof {
                assert(history@.map_values(|p: Vec<char>| p@) == before.map_values(
                    |p: Vec<char>| p@,
                ) + seq![t@]);
            }
        }
        i = i + 1;
    }
    proof {
        assert(v.take(snapshot@.len() as int) == v);
    }
    let ghost h = history@.map_values(|p: Vec<char>| p@);
    proof {
        assert(h == answer_texts(v));
    }
    let upto: usize = if history.len() > 0 {
        history.len() - 1
    } else {
        0
    };
    let ghost prior = if h.len() > 0 {
        h.drop_last()
    } else {
        h
    };
    let mut j: usize = 0;
    while j < upto
        invariant
            j <= upto,
            upto <= history@.len(),
            h == history@.map_values(|p: Vec<char>| p@),
            prior.len() == upto,
            forall|q: int| 0 <= q < upto ==> prior[q] == h[q],
            prefix@ == n@.take(k as int),
            forall|q: int| 0 <= q < j ==> !(prior[q].len() > 0 && has_sub(#[trigger] prior[q], prefix@)),
            h == answer_texts(v),
            v == message_views(snapshot@),
            prior == (if h.len() > 0 {
                h.drop_last()
            } else {
                h
            }),
            n@ == normalized(last_text@),
            chars_in_bytes(n@, 180) == k,
            byte_len(n@) >= 180,
        decreases upto - j,
    {
        proof {
            assert(prior[j as int] == history@[j as int]@);
        }
        if history[j].len() > 0 && has_sub_exec(&history[j], &prefix) {
            proof {
                assert(prior[j as int].len() > 0 && has_sub(prior[j as int], prefix@));
                let nn = normalized(last_text@);
                assert(nn == n@);
                assert(nn.take(chars_in_bytes(nn, 180)) == prefix@);
                assert(replay_hit(prior, prefix@));
            }
            return true;
        }
        j = j + 1;
    }
    false
}

/// The steering part of the supervising prompt.
pub open spec fn steering(
    mode: AutoDriveMode,
    replay_loop: bool,
    meta_loop: bool,
    creative: bool,
    completion_signal: bool,
    stalled: bool,
    frontier_text: Seq<char>,
) -> Seq<char> {
    let open = mode == AutoDriveMode::OpenEnded;
    if open && replay_loop && creative {
        "You are replaying earlier story text. Stop rewriting from the top. Continue only from the latest frontier below. Begin with the very next sentence after it. Do not repeat any sentence or paragraph from the excerpt. Output only new story prose.\n\nLatest frontier:\n"@
            + frontier_text
    } else if open && meta_loop && creative {
        "You are stuck in meta-commentary. Stop describing the next step and write the story itself. Continue directly in prose from the latest frontier below. No analysis, no options, no explanation, no review. Output only the next scene or passage.\n\nLatest frontier:\n"@
            + frontier_text
    } else if open && meta_loop {
        "You are stuck in meta-commentary. Stop describing the next step and perform the next step directly. Output the work itself, not a review, plan, or explanation."@
    } else if open && creative {
        "Continue the story directly from the latest frontier below. Do not review the story, summarize what comes next, or restart from earlier sections. Output only new story text that comes after this point.\n\nLatest frontier:\n"@
            + frontier_text
    } else if open && completion_signal {
        "The obvious version of the task appears complete. Do not stop. Push beyond the first finished draft by expanding, deepening, iterating, branching into a new angle, or producing a stronger alternate pass."@
    } else if stalled {
        "You appear to be stalling or repeating yourself. Re-plan from the current state, choose a narrower next step, and avoid repeating prior summaries or actions."@
    } else {
        "Review the latest state and choose the single highest-value next step instead of repeating or summarizing old work."@
    }
}

/// What the prompt says of the open inbox questions.
pub open spec fn question_policy(open_questions: nat) -> Seq<char> {
    if open_questions > 0 {
        "There are "@ + decimal(open_questions)
            + " open inbox question(s). Keep going without waiting for the user unless an answer is truly required right now; if needed, state the assumption you are making and continue."@
    } else {
        "There are no open inbox questions right now."@
    }
}

/// What the prompt says of stopping, by mode.
pub open spec fn stopping_rule(mode: AutoDriveMode) -> Seq<char> {
    match mode {
        AutoDriveMode::Completion => "Treat completion as a valid stopping condition. If the objective is truly complete or you are meaningfully blocked, emit `[[auto-drive-stop]] <reason>` on its own line, then give a short closing note. Otherwise, keep working toward completion."@,
        AutoDriveMode::OpenEnded => "Do not stop just because the first obvious version is complete. Keep going by refining, extending, or exploring another direction. Only emit `[[auto-drive-stop]] <reason>` if you are blocked by a hard external constraint that prevents meaningful progress. For open-ended creative tasks, continue with the next meaningful section, variation, or escalation instead of stopping early. Never answer with only meta-commentary about what you should do next; perform it."@,
    }
}

/// The supervising prompt for the next Auto Drive turn.
pub open spec fn supervisor_prompt(
    last_text: Seq<char>,
    open_questions: nat,
    stalled: bool,
    completion_signal: bool,
    meta_loop: bool,
    replay_loop: bool,
    creative: bool,
    mode: AutoDriveMode,
    completed_turns: nat,
) -> Seq<char> {
    "Auto Drive supervisor review for cycle "@ + decimal(completed_turns)
        + ".\n\nLatest visible result:\n"@ + quoted_result(last_text) + "\n\n"@ + steering(
        mode,
        replay_loop,
        meta_loop,
        creative,
        completion_signal,
        stalled,
        frontier(last_text),
    ) + "\n"@ + question_policy(open_questions) + "\n\n"@ + stopping_rule(mode)
}

/// Whether the texts an answer's prompt is built from can be cut where
/// they are cut, and are of a size that fits in memory.
pub open spec fn prompt_buildable(last_text: Seq<char>) -> bool {
    &&& byte_len(visible_text(last_text)) <= usize::MAX
    &&& byte_len(trim(visible_text(last_text))) <= usize::MAX
    &&& frontier_cuttable(last_text)
    &&& result_cuttable(last_text)
}

/// The supervising prompt for the next Auto Drive turn.
pub fn auto_drive_prompt(
    last_assistant_text: &str,
    open_questions: usize,
    stalled: bool,
    completion_signal: bool,
    meta_loop: bool,
    replay_loop: bool,
    creative_writing: bool,
    mode: AutoDriveMode,
    completed_turns: u32,
) -> (r: String)
    requires
        prompt_buildable(last_assistant_text@),
    ensures
        r@ == supervisor_prompt(
            last_assistant_text@,
            open_questions as nat,
            stalled,
            completion_signal,
            meta_loop,
            replay_loop,
            creative_writing,
            mode,
            completed_turns as nat,
        ),
{
    let excerpt = quoted_result_exec(last_assistant_text);
    let frontier_text = chars_of(auto_drive_frontier_excerpt(last_assistant_text).as_str());
    let open = mode == AutoDriveMode::OpenEnded;
    let mut steer: Vec<char> = Vec::new();
    if open && replay_loop && creative_writing {
        push_text(
            &mut steer,
            "You are replaying earlier story text. Stop rewriting from the top. Continue only from the latest frontier below. Begin with the very next sentence after it. Do not repeat any sentence or paragraph from the excerpt. Output only new story prose.\n\nLatest frontier:\n",
        );
        append_chars(&mut steer, &frontier_text);
    } else if open && meta_loop && creative_writing {
        push_text(
            &mut steer,
            "You are stuck in meta-commentary. Stop describing the next step and write the story itself. Continue directly in prose from the latest frontier below. No analysis, no options, no explanation, no review. Output only the next scene or passage.\n\nLatest frontier:\n",
        );
        append_chars(&mut steer, &frontier_text);
    } else if open && meta_loop {
        push_text(
            &mut steer,
            "You are stuck in meta-commentary. Stop describing the next step and perform the next step directly. Output the work itself, not a review, plan, or explanation.",
        );
    } else if open && creative_writing {
        push_text(
            &mut steer,
            "Continue the story directly from the latest frontier below. Do not review the story, summarize what comes next, or restart from earlier sections. Output only new story text that comes after this point.\n\nLatest frontier:\n",
        );
        append_chars(&mut steer, &frontier_text);
    } else if open && completion_signal {
        push_text(
            &mut steer,
            "The obvious version of the task appears complete. Do not stop. Push beyond the first finished draft by expanding, deepening, iterating, branching into a new angle, or producing a stronger alternate pass.",
        );
    } else if stalled {
        push_text(
            &mut steer,
            "You appear to be stalling or repeating yourself. Re-plan from the current state, choose a narrower next step, and avoid repeating prior summaries or actions.",
        );
    } else {
        push_text(
            &mut steer,
            "Review the latest state and choose the single highest-value next step instead of repeating or summarizing old work.",
        );
    }
    let mut policy: Vec<char> = Vec::new();
    if open_questions > 0 {
        push_text(&mut policy, "There are ");
        push_decimal(&mut policy, open_questions as u64);
        push_text(
            &mut policy,
            " open inbox question(s). Keep going without waiting for the user unless an answer is truly required right now; if needed, state the assumption you are making and continue.",
        );
    } else {
        push_text(&mut policy, "There are no open inbox questions right now.");
    }
    let mut out: Vec<char> = Vec::new();
    push_text(&mut out, "Auto Drive supervisor review for cycle ");
    push_decimal(&mut out, completed_turns as u64);
    push_text(&mut out, ".\n\nLatest visible result:\n");
    append_chars(&mut out, &excerpt);
    push_text(&mut out, "\n\n");
    append_chars(&mut out, &steer);
    push_text(&mut out, "\n");
    append_chars(&mut out, &policy);
    push_text(&mut out, "\n\n");
    match mode {
        AutoDriveMode::Completion => push_text(
            &mut out,
            "Treat completion as a valid stopping condition. If the objective is truly complete or you are meaningfully blocked, emit `[[auto-drive-stop]] <reason>` on its own line, then give a short closing note. Otherwise, keep working toward completion.",
        ),
        AutoDriveMode::OpenEnded => push_text(
            &mut out,
            "Do not stop just because the first obvious version is complete. Keep going by refining, extending, or exploring another direction. Only emit `[[auto-drive-stop]] <reason>` if you are blocked by a hard external constraint that prevents meaningful progress. For open-ended creative tasks, continue with the next meaningful section, variation, or escalation instead of stopping early. Never answer with only meta-commentary about what you should do next; perform it.",
        ),
    }
    proof {
        assert(steer@ == steering(
            mode,
            replay_loop,
            meta_loop,
            creative_writing,
            completion_signal,
            stalled,
            frontier(last_assistant_text@),
        ));
        assert(policy@ == question_policy(open_questions as nat));
    }
    string_from(&out)
}


/// What happens after a finished turn, before any prompt is built.
#[derive(Debug, Clone, PartialEq, Eq)]
pub enum AutoDriveDecision {
    /// Auto Drive is off or there is no thread: its clock starts over.
    Reset,
    /// Auto Drive stops, with the note to show.
    Stop(String),
    /// Auto Drive goes on.
    Proceed,
}

/// The decision as plain values.
pub enum DecisionView {
    Reset,
    Stop(Seq<char>),
    Proceed,
}

/// The decision as plain values.
pub open spec fn decision_view(g: AutoDriveDecision) -> DecisionView {
    match g {
        AutoDriveDecision::Reset => DecisionView::Reset,
        AutoDriveDecision::Stop(m) => DecisionView::Stop(m@),
        AutoDriveDecision::Proceed => DecisionView::Proceed,
    }
}

/// Whether the transcript holds a finished error line.
pub open spec fn ended_in_error(s: Seq<MessageView>) -> bool {
    exists|i: int|
        0 <= i < s.len() && (#[trigger] s[i]).kind == ChatMessageKind::Status && s[i].complete
            && s[i].title == Some("Error"@)
}

/// `i64::saturating_sub`.
pub open spec fn saturating_diff(a: i64, b: i64) -> int {
    let d = a - b;
    if d > i64::MAX {
        i64::MAX as int
    } else if d < i64::MIN {
        i64::MIN as int
    } else {
        d
    }
}

/// The decision after a finished turn: off or threadless resets the clock;
/// otherwise the clock starts (if it had not) and counts the turn, and
/// Auto Drive stops on an error, on reaching its turn or runtime limit,
/// without a finished answer, or on a stop line in completion mode.
pub open spec fn decision_of(
    enabled: bool,
    has_thread: bool,
    started_at: Option<i64>,
    completed_turns: u32,
    now: i64,
    s: Seq<MessageView>,
    mode: AutoDriveMode,
    turns_text: Seq<char>,
    runtime_text: Seq<char>,
) -> (DecisionView, Option<i64>, u32) {
    if !enabled || !has_thread {
        (DecisionView::Reset, None, 0)
    } else {
        let start = match started_at {
            Some(t) => t,
            None => now,
        };
        let turns: u32 = if completed_turns < u32::MAX {
            (completed_turns + 1) as u32
        } else {
            u32::MAX
        };
        let recent = recent_answers(s, 2);
        let step = if ended_in_error(s) {
            DecisionView::Stop("Stopped: the last turn ended with an error."@)
        } else if limit_of(turns_text) matches Some(l) && turns >= l {
            DecisionView::Stop("Stopped: reached the Auto Drive turn limit."@)
        } else if limit_of(runtime_text) matches Some(h) && saturating_diff(now, start) >= h * 3600 {
            DecisionView::Stop("Stopped: reached the Auto Drive runtime limit."@)
        } else if recent.len() == 0 {
            DecisionView::Stop("Stopped: there is no completed assistant output to build on yet."@)
        } else if mode == AutoDriveMode::Completion && stop_reason(s[recent[0]].text, true) is Some {
            DecisionView::Stop("Stopped: "@ + stop_reason(s[recent[0]].text, true)->0 + "."@)
        } else {
            DecisionView::Proceed
        };
        (step, Some(start), turns)
    }
}

fn note(t: &str) -> (r: AutoDriveDecision)
    ensures
        decision_view(r) == DecisionView::Stop(t@),
{
    AutoDriveDecision::Stop(String::from_str(t))
}

/// Decides, after a finished turn, whether Auto Drive resets, stops or
/// goes on, with the clock's new start and turn count.
pub fn auto_drive_decide(
    enabled: bool,
    has_thread: bool,
    started_at: Option<i64>,
    completed_turns: u32,
    now: i64,
    snapshot: &Vec<MessageItem>,
    mode: AutoDriveMode,
    turns_text: &str,
    runtime_text: &str,
) -> (r: (AutoDriveDecision, Option<i64>, u32))
    ensures
        (decision_view(r.0), r.1, r.2) == decision_of(
            enabled,
            has_thread,
            started_at,
            completed_turns,
            now,
            message_views(snapshot@),
            mode,
            turns_text@,
            runtime_text@,
        ),
{
    if !enabled || !has_thread {
        return (AutoDriveDecision::Reset, None, 0);
    }
    let ghost v = message_views(snapshot@);
    let start = match started_at {
        Some(t) => t,
        None => now,
    };
    let turns: u32 = if completed_turns < u32::MAX {
        completed_turns + 1
    } else {
        u32::MAX
    };
    let mut i: usize = snapshot.len();
    let mut errored = false;
    while i > 0
        invariant
            i <= snapshot@.len(),
            v == message_views(snapshot@),
            errored == (exists|j: int|
                i <= j < snapshot@.len() && (#[trigger] v[j]).kind == ChatMessageKind::Status
                    && v[j].complete && v[j].title == Some("Error"@)),
        decreases i,
    {
        let m = &snapshot[i - 1];
        let is_error = m.kind == ChatMessageKind::Status && m.complete && match &m.title {
            Some(t) => crate::text::text_eq(t.as_str(), "Error"),
            None => false,
        };
        proof {
            assert(v[i - 1] == m@);
        }
        if is_error {
            errored = true;
        }
        i = i - 1;
    }
    if errored {
        return (note("Stopped: the last turn ended with an error."), Some(start), turns);
    }
    match optional_limit_value(turns_text) {
        Some(limit) => {
            if turns >= limit {
                return (note("Stopped: reached the Auto Drive turn limit."), Some(start), turns);
            }
        },
        None => {},
    }
    match optional_limit_value(runtime_text) {
        Some(hours) => {
            let limit: i64 = (hours as i64) * 3600;
            let elapsed: i64 = if start < 0 && now > i64::MAX + start {
                i64::MAX
            } else if start > 0 && now < i64::MIN + start {
                i64::MIN
            } else {
                now - start
            };
            if elapsed >= limit {
                return (note("Stopped: reached the Auto Drive runtime limit."), Some(start), turns);
            }
        },
        None => {},
    }
    let recent = last_two_answers(snapshot);
    if recent.len() == 0 {
        return (
            note("Stopped: there is no completed assistant output to build on yet."),
            Some(start),
            turns,
        );
    }
    proof {
        lemma_recent_answers_bounds(v, 2);
        assert(recent@[0] as int == recent_answers(v, 2)[0]);
    }
    if mode == AutoDriveMode::Completion {
        let last = &snapshot[recent[0]];
        match extract_auto_drive_stop_reason(last.text.as_str(), true) {
            Some(reason) => {
                let mut out = chars_of("Stopped: ");
                append_chars(&mut out, &chars_of(reason.as_str()));
                push_text(&mut out, ".");
                return (AutoDriveDecision::Stop(string_from(&out)), Some(start), turns);
            },
            None => {},
        }
    }
    (AutoDriveDecision::Proceed, Some(start), turns)
}

/// The note shown when Auto Drive goes on.
pub open spec fn status_line(
    mode: AutoDriveMode,
    replay_loop: bool,
    meta_loop: bool,
    creative: bool,
    completion_signal: bool,
    stalled: bool,
) -> Seq<char> {
    let open = mode == AutoDriveMode::OpenEnded;
    if open && replay_loop && creative {
        "Detected replay. Forcing continuation from the latest frontier..."@
    } else if open && meta_loop && creative {
        "Switching from review to direct story output..."@
    } else if open && meta_loop {
        "Switching from review to direct execution..."@
    } else if open && creative {
        "Continuing the story from the latest frontier..."@
    } else if open && completion_signal {
        "Pushing past the first completed draft..."@
    } else if stalled {
        "Replanning from the latest state..."@
    } else {
        "Reviewing the latest work and continuing..."@
    }
}

/// Whether the newest finished answer can have its prompt built, where
/// there is one.
pub open spec fn continuation_buildable(s: Seq<MessageView>) -> bool {
    let recent = recent_answers(s, 2);
    recent.len() > 0 && {
        let last = s[recent[0]].text;
        &&& prompt_buildable(last)
        &&& byte_len(normalized(last)) <= usize::MAX
        &&& replay_cuttable(last)
    }
}

fn byte_total_checked(v: &Vec<char>) -> (r: Option<usize>)
    ensures
        match r {
            Some(n) => n == byte_len(v@),
            None => byte_len(v@) > usize::MAX,
        },
{
    let mut total: usize = 0;
    let mut i: usize = 0;
    proof {
        assert(v@.take(0).len() == 0);
    }
    while i < v.len()
        invariant
            i <= v@.len(),
            total == byte_len(v@.take(i as int)),
        decreases v@.len() - i,
    {
        let w = char_width(v[i]);
        proof {
            lemma_byte_len_grows(v@, i as int);
            lemma_byte_len_mono(v@, i + 1, v@.len() as int);
            assert(v@.take(v@.len() as int) == v@);
        }
        if total > usize::MAX - w {
            return None;
        }
        total = total + w;
        i = i + 1;
    }
    proof {
        assert(v@.take(v@.len() as int) == v@);
    }
    Some(total)
}

/// Whether the byte offset `b` can be cut at: the text is shorter than
/// `b` bytes (`strictly_shorter`) or no longer than that (otherwise), or `b` falls
/// between characters.
fn cut_ok(v: &Vec<char>, b: usize, strictly_shorter: bool) -> (r: bool)
    requires
        byte_len(v@) <= usize::MAX,
    ensures
        r == (if strictly_shorter {
            byte_len(v@) < b
        } else {
            byte_len(v@) <= b
        } || at_boundary(v@, b as nat)),
{
    let (total, cut) = byte_cut(v, b);
    proof {
        if let Some(k) = cut {
            assert(0 <= k <= v@.len() && byte_len(v@.take(k as int)) == b);
        }
    }
    (if strictly_shorter {
        total < b
    } else {
        total <= b
    }) || cut.is_some()
}

/// Whether Auto Drive can build its next prompt from this transcript: there
/// is a finished answer, and the places where its text is cut fall between
/// characters.
pub fn auto_drive_can_continue(snapshot: &Vec<MessageItem>) -> (b: bool)
    ensures
        b == continuation_buildable(message_views(snapshot@)),
{
    let ghost v = message_views(snapshot@);
    let recent = last_two_answers(snapshot);
    if recent.len() == 0 {
        return false;
    }
    proof {
        lemma_recent_answers_bounds(v, 2);
        assert(recent@[0] as int == recent_answers(v, 2)[0]);
    }
    let last = &snapshot[recent[0]];
    proof {
        assert(v[recent@[0] as int] == last@);
    }
    let clean = chars_of(strip_assistant_protocol_lines(last.text.as_str()).as_str());
    let clean_total = byte_total_checked(&clean);
    if clean_total.is_none() {
        return false;
    }
    let trimmed = trim_chars(&clean);
    let trimmed_total = byte_total_checked(&trimmed);
    if trimmed_total.is_none() {
        return false;
    }
    let norm = normalized_auto_drive_text(last.text.as_str());
    let norm_total = byte_total_checked(&norm);
    if norm_total.is_none() {
        return false;
    }
    let frontier_ok = frontier_is_cuttable(last.text.as_str());
    let result_ok = cut_ok(&trimmed, 900, false);
    let replay_ok = cut_ok(&norm, 180, true);
    frontier_ok && result_ok && replay_ok
}

/// The prompt and the note with which Auto Drive goes on: built from the
/// newest finished answer, watching whether it repeats the one before,
/// only talks about the work, replays earlier text, or answers a request
/// for creative writing.
pub open spec fn continuation_of(
    s: Seq<MessageView>,
    inbox: Seq<InboxItem>,
    mode: AutoDriveMode,
    completed_turns: u32,
) -> (Seq<char>, Seq<char>) {
    let recent = recent_answers(s, 2);
    let last = s[recent[0]].text;
    let last_norm = normalized(last);
    let stalled = last_norm.len() > 0 && recent.len() > 1 && normalized(s[recent[1]].text)
        == last_norm;
    let meta_loop = forall|k: int|
        0 <= k < recent.len() ==> holds_any(normalized(s[#[trigger] recent[k]].text), meta_needles());
    let replay_loop = replays(last, s);
    let creative = match last_user_text(s) {
        Some(t) => holds_any(lower(t), creative_needles()),
        None => false,
    };
    let completion_signal = stop_reason(last, true) is Some;
    (
        supervisor_prompt(
            last,
            open_question_count(inbox),
            stalled,
            completion_signal,
            meta_loop,
            replay_loop,
            creative,
            mode,
            completed_turns as nat,
        ),
        status_line(mode, replay_loop, meta_loop, creative, completion_signal, stalled),
    )
}

/// The prompt and the note with which Auto Drive goes on.
pub fn auto_drive_continuation(
    snapshot: &Vec<MessageItem>,
    inbox: &Vec<InboxItem>,
    mode: AutoDriveMode,
    completed_turns: u32,
) -> (r: (String, String))
    requires
        continuation_buildable(message_views(snapshot@)),
    ensures
        (r.0@, r.1@) == continuation_of(message_views(snapshot@), inbox@, mode, completed_turns),
{
    let ghost v = message_views(snapshot@);
    let recent = last_two_answers(snapshot);
    proof {
        lemma_recent_answers_bounds(v, 2);
        assert(recent@[0] as int == recent_answers(v, 2)[0]);
        if recent@.len() > 1 {
            assert(recent@[1] as int == recent_answers(v, 2)[1]);
        }
    }
    let last = &snapshot[recent[0]];
    proof {
        assert(v[recent@[0] as int] == last@);
    }
    let last_norm = normalized_auto_drive_text(last.text.as_str());
    let stalled = if last_norm.len() > 0 && recent.len() > 1 {
        let prev = &snapshot[recent[1]];
        proof {
            assert(v[recent@[1] as int] == prev@);
        }
        chars_eq(&normalized_auto_drive_text(prev.text.as_str()), &last_norm)
    } else {
        false
    };
    let mut meta_loop = true;
    let mut k: usize = 0;
    while k < recent.len()
        invariant
            k <= recent@.len(),
            v == message_views(snapshot@),
            recent@.map_values(|i: usize| i as int) == recent_answers(v, 2),
            forall|q: int| 0 <= q < recent_answers(v, 2).len() ==> 0 <= #[trigger] recent_answers(v, 2)[q] < v.len(),
            meta_loop == (forall|q: int|
                0 <= q < k ==> holds_any(
                    normalized(v[#[trigger] recent_answers(v, 2)[q]].text),
                    meta_needles(),
                )),
        decreases recent@.len() - k,
    {
        proof {
            assert(recent@.map_values(|i: usize| i as int)[k as int] == recent@[k as int] as int);
            assert(recent@[k as int] as int == recent_answers(v, 2)[k as int]);
            assert(recent_answers(v, 2)[k as int] < v.len());
        }
        let m = &snapshot[recent[k]];
        proof {
            assert(v[recent@[k as int] as int] == m@);
        }
        let is_meta = is_auto_drive_meta_response(m.text.as_str());
        meta_loop = meta_loop && is_meta;
        k = k + 1;
    }
    let replay_loop = appears_to_replay_existing_text(last.text.as_str(), snapshot);
    let creative = match last_completed_user_message(snapshot) {
        Some(t) => is_creative_writing_request(t.as_str()),
        None => false,
    };
    let open = open_questions(inbox);
    let completion_signal = extract_auto_drive_stop_reason(last.text.as_str(), true).is_some();
    let prompt = auto_drive_prompt(
        last.text.as_str(),
        open,
        stalled,
        completion_signal,
        meta_loop,
        replay_loop,
        creative,
        mode,
        completed_turns,
    );
    let is_open = mode == AutoDriveMode::OpenEnded;
    let status: &str = if is_open && replay_loop && creative {
        "Detected replay. Forcing continuation from the latest frontier..."
    } else if is_open && meta_loop && creative {
        "Switching from review to direct story output..."
    } else if is_open && meta_loop {
        "Switching from review to direct execution..."
    } else if is_open && creative {
        "Continuing the story from the latest frontier..."
    } else if is_open && completion_signal {
        "Pushing past the first completed draft..."
    } else if stalled {
        "Replanning from the latest state..."
    } else {
        "Reviewing the latest work and continuing..."
    };
    (prompt, String::from_str(status))
}

/// The Auto Drive clock between turns: when its cycle started, how many
/// turns it has completed, and whether the user stopped the running turn.
#[derive(Debug, Clone, Copy, PartialEq, Eq)]
pub struct AutoDriveClock {
    pub started_at: Option<i64>,
    pub completed_turns: u32,
    pub suppress_next: bool,
}

/// What the clock does when the user sends a prompt: the stop mark is
/// cleared; a new cycle starts now when Auto Drive is on and the prompt
/// starts one; with Auto Drive off the clock is cleared.
pub open spec fn clock_on_submit(c: AutoDriveClock, enabled: bool, reset_cycle: bool, now: i64) -> AutoDriveClock {
    if enabled && reset_cycle {
        AutoDriveClock { started_at: Some(now), completed_turns: 0, suppress_next: false }
    } else if !enabled {
        AutoDriveClock { started_at: None, completed_turns: 0, suppress_next: false }
    } else {
        AutoDriveClock { suppress_next: false, ..c }
    }
}

/// What the clock does when a turn completes: after a stop by the user,
/// Auto Drive halts once with the note "Stopped by user." and the mark is
/// cleared; otherwise nothing changes and the usual decision follows.
pub open spec fn clock_on_completion(c: AutoDriveClock) -> (AutoDriveClock, Option<Seq<char>>) {
    if c.suppress_next {
        (AutoDriveClock { suppress_next: false, ..c }, Some("Stopped by user."@))
    } else {
        (c, None)
    }
}

impl AutoDriveClock {
    /// A clock with no cycle running.
    pub fn new() -> (c: AutoDriveClock)
        ensures
            c == (AutoDriveClock { started_at: None, completed_turns: 0, suppress_next: false }),
    {
        AutoDriveClock { started_at: None, completed_turns: 0, suppress_next: false }
    }

    /// The user stopped the running turn: the next completion does not
    /// continue Auto Drive.
    pub fn user_stopped(&mut self)
        ensures
            *final(self) == (AutoDriveClock { suppress_next: true, ..*old(self) }),
    {
        self.suppress_next = true;
    }

    /// The user sent a prompt.
    pub fn prompt_sent(&mut self, enabled: bool, reset_cycle: bool, now: i64)
        ensures
            *final(self) == clock_on_submit(*old(self), enabled, reset_cycle, now),
    {
        if enabled && reset_cycle {
            self.started_at = Some(now);
            self.completed_turns = 0;
        } else if !enabled {
            self.started_at = None;
            self.completed_turns = 0;
        }
        self.suppress_next = false;
    }

    /// A turn completed: the note to show where Auto Drive halts because the
    /// user stopped the turn.
    pub fn turn_completed(&mut self) -> (note: Option<String>)
        ensures
            (*final(self), match note {
                Some(n) => Some(n@),
                None => None::<Seq<char>>,
            }) == clock_on_completion(*old(self)),
    {
        if self.suppress_next {
            self.suppress_next = false;
            proof {
                reveal_strlit("Stopped by user.");
            }
            Some(String::from_str("Stopped by user."))
        } else {
            None
        }
    }
}

} // verus!
