//! Linked accounts: what an account's auth file says, the masks and labels
//! shown for it, how the device-auth output of `codex login` is read, which
//! account a new app-server runs with, and how the account store changes
//! when accounts are linked, found again or removed.
use vstd::prelude::*;

use std::path::PathBuf;

use base64::Engine;

use crate::paths::{path_from, path_of_text};
use crate::text::{
    chars_of, decimal, extend_chars, has_prefix, has_prefix_exec, push_decimal, string_from, text_eq, trim,
    trim_str, words, words_of,
};

verus! {

/// How an account signs in.
#[derive(Debug, Clone, Copy, PartialEq, Eq, Structural)]
pub enum AccountKind {
    ApiKey,
    Chatgpt,
}

/// What `codex login --device-auth` asked the user to do.
#[derive(Debug, Clone, PartialEq, Eq)]
pub struct DeviceAuthStart {
    pub pending_id: String,
    pub verification_uri: String,
    pub user_code: String,
}

/// `n` asterisks.
pub open spec fn stars(n: nat) -> Seq<char> {
    Seq::new(n, |i: int| '*')
}

/// A secret as it is shown: up to eight characters become asterisks; a
/// longer one keeps its first three and last four characters around at
/// least four asterisks.
pub open spec fn masked(s: Seq<char>) -> Seq<char> {
    if s.len() <= 8 {
        stars(s.len())
    } else {
        let middle: nat = if s.len() - 7 >= 4 {
            (s.len() - 7) as nat
        } else {
            4
        };
        s.take(3) + stars(middle) + s.skip(s.len() - 4)
    }
}

fn push_stars(out: &mut Vec<char>, n: usize)
    ensures
        final(out)@ == old(out)@ + stars(n as nat),
{
    let ghost start = out@;
    let mut i: usize = 0;
    while i < n
        invariant
            i <= n,
            out@ == start + stars(i as nat),
        decreases n - i,
    {
        out.push('*');
        i = i + 1;
        proof {
            assert(out@ == start + stars(i as nat));
        }
    }
}

/// The secret with its middle masked.
pub fn mask_secret(secret: String) -> (r: String)
    ensures
        r@ == masked(secret@),
{
    let v = chars_of(secret.as_str());
    let n = v.len();
    let mut out: Vec<char> = Vec::new();
    if n <= 8 {
        push_stars(&mut out, n);
        proof {
            assert(out@ == stars(n as nat));
        }
        return string_from(&out);
    }
    out.push(v[0]);
    out.push(v[1]);
    out.push(v[2]);
    proof {
        assert(out@ == v@.take(3));
    }
    let middle: usize = if n - 7 >= 4 {
        n - 7
    } else {
        4
    };
    push_stars(&mut out, middle);
    let ghost head = out@;
    let mut i: usize = n - 4;
    while i < n
        invariant
            n == v@.len(),
            n > 8,
            n - 4 <= i <= n,
            out@ == head + v@.subrange(n - 4, i as int),
        decreases n - i,
    {
        out.push(v[i]);
        proof {
            assert(v@.subrange(n - 4, i as int).push(v@[i as int]) == v@.subrange(
                n - 4,
                i + 1,
            ));
        }
        i = i + 1;
    }
    proof {
        assert(v@.subrange(n - 4, n as int) == v@.skip(n - 4));
    }
    string_from(&out)
}

/// `char::is_ascii_alphanumeric`.
pub open spec fn is_ascii_alnum(c: char) -> bool {
    ('0' <= c && c <= '9') || ('a' <= c && c <= 'z') || ('A' <= c && c <= 'Z')
}

/// A device code: four ASCII letters or digits, a hyphen, five more.
pub open spec fn device_code(s: Seq<char>) -> bool {
    &&& s.len() == 10
    &&& s[4] == '-'
    &&& forall|i: int| 0 <= i < 10 && i != 4 ==> is_ascii_alnum(#[trigger] s[i])
}

fn ascii_alnum(c: char) -> (b: bool)
    ensures
        b == is_ascii_alnum(c),
{
    ('0' <= c && c <= '9') || ('a' <= c && c <= 'z') || ('A' <= c && c <= 'Z')
}

fn device_code_chars(s: &Vec<char>) -> (b: bool)
    ensures
        b == device_code(s@),
{
    if s.len() != 10 || s[4] != '-' {
        return false;
    }
    let mut i: usize = 0;
    while i < 10
        invariant
            s@.len() == 10,
            i <= 10,
            forall|k: int| 0 <= k < i && k != 4 ==> is_ascii_alnum(#[trigger] s@[k]),
        decreases 10 - i,
    {
        if i != 4 && !ascii_alnum(s[i]) {
            return false;
        }
        i = i + 1;
    }
    true
}

/// Whether `part` is a device code as `codex login` prints it.
pub fn is_device_code(part: &str) -> (b: bool)
    ensures
        b == device_code(part@),
{
    device_code_chars(&chars_of(part))
}

/// Whether `c` ends an escape sequence that began with ESC `[`.
pub open spec fn csi_final(c: char) -> bool {
    '@' <= c && c <= '~'
}

/// How many characters after ESC `[` the escape sequence takes: up to and
/// including its final character, or all that is left.
pub open spec fn csi_len(t: Seq<char>) -> nat
    decreases t.len(),
{
    if t.len() == 0 {
        0
    } else if csi_final(t[0]) {
        1
    } else {
        1 + csi_len(t.skip(1))
    }
}

/// The text with its ANSI escape sequences (ESC `[` ... final character)
/// taken out.
pub open spec fn stripped(s: Seq<char>) -> Seq<char>
    decreases s.len(),
{
    if s.len() == 0 {
        s
    } else if s.len() >= 2 && s[0] == '\u{1b}' && s[1] == '[' {
        let rest = s.skip(2);
        proof {
            lemma_csi_len_bound(rest);
        }
        stripped(rest.skip(csi_len(rest) as int))
    } else {
        seq![s[0]] + stripped(s.skip(1))
    }
}

/// An escape sequence takes no more than the text that is left.
pub proof fn lemma_csi_len_bound(t: Seq<char>)
    ensures
        csi_len(t) <= t.len(),
    decreases t.len(),
{
    if t.len() > 0 && !csi_final(t[0]) {
        lemma_csi_len_bound(t.skip(1));
    }
}

proof fn lemma_csi_len_at(t: Seq<char>, m: int)
    requires
        0 <= m <= t.len(),
        forall|k: int| 0 <= k < m ==> !csi_final(#[trigger] t[k]),
        m < t.len() ==> csi_final(t[m]),
    ensures
        csi_len(t) == if m < t.len() {
            m + 1
        } else {
            m
        },
    decreases m,
{
    if m > 0 {
        let u = t.skip(1);
        assert forall|k: int| 0 <= k < m - 1 implies !csi_final(#[trigger] u[k]) by {
            assert(u[k] == t[k + 1]);
        }
        if m - 1 < u.len() {
            assert(u[m - 1] == t[m]);
        }
        lemma_csi_len_at(u, m - 1);
    }
}

/// The text with its ANSI escape sequences taken out.
pub fn strip_ansi(input: &str) -> (r: String)
    ensures
        r@ == stripped(input@),
{
    let v = chars_of(input);
    let n = v.len();
    let mut out: Vec<char> = Vec::new();
    let mut i: usize = 0;
    proof {
        assert(v@.skip(0) == v@);
    }
    while i < n
        invariant
            n == v@.len(),
            i <= n,
            out@ + stripped(v@.skip(i as int)) == stripped(v@),
        decreases n - i,
    {
        let ghost rest = v@.skip(i as int);
        if v[i] == '\u{1b}' && i + 1 < n && v[i + 1] == '[' {
            let mut j: usize = i + 2;
            while j < n && !('@' <= v[j] && v[j] <= '~')
                invariant
                    n == v@.len(),
                    i + 2 <= j <= n,
                    forall|k: int| i + 2 <= k < j ==> !csi_final(#[trigger] v@[k]),
                decreases n - j,
            {
                j = j + 1;
            }
            let next: usize = if j < n {
                j + 1
            } else {
                j
            };
            proof {
                let t = v@.skip(i + 2);
                assert(rest.skip(2) == t);
                assert forall|k: int| 0 <= k < j - (i + 2) implies !csi_final(#[trigger] t[k]) by {
                    assert(t[k] == v@[k + i + 2]);
                }
                if j < n {
                    assert(t[j - (i + 2)] == v@[j as int]);
                }
                lemma_csi_len_at(t, j - (i + 2));
                assert(t.skip(csi_len(t) as int) == v@.skip(next as int));
                assert(stripped(rest) == stripped(v@.skip(next as int)));
            }
            i = next;
        } else {
            out.push(v[i]);
            proof {
                assert(rest[0] == v@[i as int]);
                assert(rest.skip(1) == v@.skip(i + 1));
                assert(stripped(rest) == seq![v@[i as int]] + stripped(v@.skip(i + 1)));
                assert(out@ + stripped(v@.skip(i + 1)) == stripped(v@));
            }
            i = i + 1;
        }
    }
    proof {
        assert(v@.skip(n as int).len() == 0);
        assert(out@ == stripped(v@));
    }
    string_from(&out)
}

/// Whether a word is a link that the user opens.
pub open spec fn is_https_word(w: Seq<char>) -> bool {
    has_prefix(w, "https://"@)
}

/// The first of `ws` that `p` holds of; nothing where there is none.
pub open spec fn first_where(ws: Seq<Seq<char>>, p: spec_fn(Seq<char>) -> bool) -> Option<
    Seq<char>,
>
    decreases ws.len(),
{
    if ws.len() == 0 {
        None
    } else if p(ws[0]) {
        Some(ws[0])
    } else {
        first_where(ws.skip(1), p)
    }
}

proof fn lemma_first_where_skip(ws: Seq<Seq<char>>, p: spec_fn(Seq<char>) -> bool, i: int)
    requires
        0 <= i <= ws.len(),
        forall|k: int| 0 <= k < i ==> !p(#[trigger] ws[k]),
    ensures
        first_where(ws, p) == first_where(ws.skip(i), p),
    decreases i,
{
    if i > 0 {
        let u = ws.skip(1);
        assert(!p(ws[0]));
        assert forall|k: int| 0 <= k < i - 1 implies !p(#[trigger] u[k]) by {
            assert(u[k] == ws[k + 1]);
        }
        lemma_first_where_skip(u, p, i - 1);
        assert(u.skip(i - 1) == ws.skip(i));
    } else {
        assert(ws.skip(0) == ws);
    }
}

/// What one line of device-auth output adds to the link and the code read
/// so far: each is taken from the first word of the line, without its
/// escape sequences, that fits it, while it is still missing.
pub open spec fn device_auth_line(
    uri: Option<Seq<char>>,
    code: Option<Seq<char>>,
    line: Seq<char>,
) -> (Option<Seq<char>>, Option<Seq<char>>) {
    let ws = words(stripped(line));
    (
        if uri is None {
            first_where(ws, |w: Seq<char>| is_https_word(w))
        } else {
            uri
        },
        if code is None {
            first_where(ws, |w: Seq<char>| device_code(w))
        } else {
            code
        },
    )
}

fn first_https(ws: &Vec<Vec<char>>) -> (r: Option<String>)
    ensures
        opt_chars(r) == first_where(
            ws@.map_values(|w: Vec<char>| w@),
            |w: Seq<char>| is_https_word(w),
        ),
{
    let ghost views = ws@.map_values(|w: Vec<char>| w@);
    let ghost p = |w: Seq<char>| is_https_word(w);
    let prefix = chars_of("https://");
    let mut i: usize = 0;
    while i < ws.len()
        invariant
            i <= ws@.len(),
            views == ws@.map_values(|w: Vec<char>| w@),
            p == (|w: Seq<char>| is_https_word(w)),
            prefix@ == "https://"@,
            forall|k: int| 0 <= k < i ==> !p(#[trigger] views[k]),
        decreases ws@.len() - i,
    {
        if has_prefix_exec(&ws[i], &prefix) {
            proof {
                lemma_first_where_skip(views, p, i as int);
                assert(views.skip(i as int)[0] == views[i as int]);
            }
            return Some(string_from(&ws[i]));
        }
        i = i + 1;
    }
    proof {
        lemma_first_where_skip(views, p, i as int);
    }
    None
}

fn first_device_code(ws: &Vec<Vec<char>>) -> (r: Option<String>)
    ensures
        opt_chars(r) == first_where(
            ws@.map_values(|w: Vec<char>| w@),
            |w: Seq<char>| device_code(w),
        ),
{
    let ghost views = ws@.map_values(|w: Vec<char>| w@);
    let ghost p = |w: Seq<char>| device_code(w);
    let mut i: usize = 0;
    while i < ws.len()
        invariant
            i <= ws@.len(),
            views == ws@.map_values(|w: Vec<char>| w@),
            p == (|w: Seq<char>| device_code(w)),
            forall|k: int| 0 <= k < i ==> !p(#[trigger] views[k]),
        decreases ws@.len() - i,
    {
        if device_code_chars(&ws[i]) {
            proof {
                lemma_first_where_skip(views, p, i as int);
                assert(views.skip(i as int)[0] == views[i as int]);
            }
            return Some(string_from(&ws[i]));
        }
        i = i + 1;
    }
    proof {
        lemma_first_where_skip(views, p, i as int);
    }
    None
}

/// The text of an optional string.
pub open spec fn opt_chars(o: Option<String>) -> Option<Seq<char>> {
    match o {
        Some(s) => Some(s@),
        None => None,
    }
}

/// Reads one line of `codex login --device-auth` output into the link and
/// the code found so far.
pub fn scan_device_auth_line(
    verification_uri: Option<String>,
    user_code: Option<String>,
    line: &str,
) -> (r: (Option<String>, Option<String>))
    ensures
        (opt_chars(r.0), opt_chars(r.1)) == device_auth_line(
            opt_chars(verification_uri),
            opt_chars(user_code),
            line@,
        ),
{
    let clean = strip_ansi(line);
    let ws = words_of(&chars_of(clean.as_str()));
    let uri = match verification_uri {
        Some(u) => Some(u),
        None => first_https(&ws),
    };
    let code = match user_code {
        Some(c) => Some(c),
        None => first_device_code(&ws),
    };
    (uri, code)
}

/// The link and the code once the output has ended or both were read.
pub open spec fn device_auth_outcome(uri: Option<Seq<char>>, code: Option<Seq<char>>) -> Result<
    (Seq<char>, Seq<char>),
    Seq<char>,
> {
    match uri {
        None => Err("failed to read ChatGPT device-auth URL from Codex"@),
        Some(u) => match code {
            None => Err("failed to read ChatGPT device-auth code from Codex"@),
            Some(c) => Ok((u, c)),
        },
    }
}

/// The link and the code read from the device-auth output, or the error
/// for the one that is missing.
pub fn finish_device_auth_scan(verification_uri: Option<String>, user_code: Option<String>) -> (r:
    Result<(String, String), String>)
    ensures
        match r {
            Ok((u, c)) => device_auth_outcome(opt_chars(verification_uri), opt_chars(user_code))
                == Ok::<(Seq<char>, Seq<char>), Seq<char>>((u@, c@)),
            Err(e) => device_auth_outcome(opt_chars(verification_uri), opt_chars(user_code))
                == Err::<(Seq<char>, Seq<char>), Seq<char>>(e@),
        },
{
    match verification_uri {
        None => {
            let e = String::from_str("failed to read ChatGPT device-auth URL from Codex");
            proof {
                reveal_strlit("failed to read ChatGPT device-auth URL from Codex");
            }
            Err(e)
        },
        Some(u) => match user_code {
            None => {
                let e = String::from_str("failed to read ChatGPT device-auth code from Codex");
                proof {
                    reveal_strlit("failed to read ChatGPT device-auth code from Codex");
                }
                Err(e)
            },
            Some(c) => Ok((u, c)),
        },
    }
}

/// The minutes of a usage window given in seconds: at least one.
pub open spec fn window_minutes_of(seconds: i64) -> i64 {
    if seconds >= 60 {
        (seconds / 60) as i64
    } else {
        1
    }
}

/// The length in minutes of a usage window, where the server gave one.
pub fn window_minutes(seconds: Option<i64>) -> (r: Option<i64>)
    ensures
        r == match seconds {
            Some(s) => Some(window_minutes_of(s)),
            None => None::<i64>,
        },
{
    match seconds {
        Some(s) => {
            if s >= 60 {
                Some(s / 60)
            } else {
                Some(1)
            }
        },
        None => None,
    }
}

/// `i64::saturating_add`.
pub open spec fn saturating_sum(a: i64, b: i64) -> i64 {
    if a + b > i64::MAX {
        i64::MAX
    } else if a + b < i64::MIN {
        i64::MIN
    } else {
        (a + b) as i64
    }
}

/// When a usage window resets: the time the server gave, or the check time
/// moved on by the seconds left (none below zero), held at the end of the
/// `i64` range.
pub open spec fn reset_time(reset_at: Option<i64>, reset_after: Option<i64>, checked_at: i64) -> Option<i64> {
    match reset_at {
        Some(t) => Some(t),
        None => match reset_after {
            Some(s) => Some(saturating_sum(checked_at, if s >= 0 { s } else { 0 })),
            None => None,
        },
    }
}

/// When a usage window resets, from what the usage endpoint said of it.
pub fn usage_window_reset_at(reset_at: Option<i64>, reset_after_seconds: Option<i64>, checked_at: i64) -> (r:
    Option<i64>)
    ensures
        r == reset_time(reset_at, reset_after_seconds, checked_at),
{
    match reset_at {
        Some(t) => Some(t),
        None => match reset_after_seconds {
            Some(s) => {
                let wait: i64 = if s >= 0 {
                    s
                } else {
                    0
                };
                if checked_at > i64::MAX - wait {
                    Some(i64::MAX)
                } else {
                    Some(checked_at + wait)
                }
            },
            None => None,
        },
    }
}


/// The tokens of a ChatGPT sign-in.
#[derive(Debug, Clone, PartialEq, Eq)]
pub struct AuthTokens {
    pub id_token: Option<String>,
    pub access_token: Option<String>,
    pub account_id: Option<String>,
}

/// What a Codex home's `auth.json` holds.
#[derive(Debug, Clone, PartialEq, Eq)]
pub struct AuthFile {
    pub auth_mode: Option<String>,
    pub openai_api_key: Option<String>,
    pub tokens: Option<AuthTokens>,
}

/// Whether the auth file signs in with ChatGPT.
pub open spec fn chatgpt_mode(auth: AuthFile) -> bool {
    opt_chars(auth.auth_mode) == Some("chatgpt"@)
}

/// The kind of account an auth file makes.
pub open spec fn kind_of_auth(auth: AuthFile) -> AccountKind {
    if chatgpt_mode(auth) {
        AccountKind::Chatgpt
    } else {
        AccountKind::ApiKey
    }
}

/// The credential sent as bearer: the access token of a ChatGPT sign-in,
/// the API key otherwise.
pub open spec fn bearer_of(auth: AuthFile) -> Option<Seq<char>> {
    if chatgpt_mode(auth) {
        match auth.tokens {
            Some(t) => opt_chars(t.access_token),
            None => None,
        }
    } else {
        opt_chars(auth.openai_api_key)
    }
}

fn is_chatgpt_mode(auth: &AuthFile) -> (b: bool)
    ensures
        b == chatgpt_mode(*auth),
{
    match &auth.auth_mode {
        Some(m) => {
            let r = text_eq(m.as_str(), "chatgpt");
            proof {
                reveal_strlit("chatgpt");
            }
            r
        },
        None => false,
    }
}

fn copy_text(o: &Option<String>) -> (r: Option<String>)
    ensures
        opt_chars(r) == opt_chars(*o),
{
    match o {
        Some(s) => Some(s.clone()),
        None => None,
    }
}

/// The kind of account the auth file makes.
pub fn account_kind_for(auth: &AuthFile) -> (k: AccountKind)
    ensures
        k == kind_of_auth(*auth),
{
    if is_chatgpt_mode(auth) {
        AccountKind::Chatgpt
    } else {
        AccountKind::ApiKey
    }
}

/// The credential that the auth file signs requests with.
pub fn auth_bearer(auth: &AuthFile) -> (r: Option<String>)
    ensures
        opt_chars(r) == bearer_of(*auth),
{
    if is_chatgpt_mode(auth) {
        match &auth.tokens {
            Some(t) => copy_text(&t.access_token),
            None => None,
        }
    } else {
        copy_text(&auth.openai_api_key)
    }
}

/// What the identity token of a ChatGPT sign-in says of the account: its
/// email, its plan, and until when the subscription runs.
pub type ChatgptMetadata = (Option<String>, Option<String>, Option<String>);

/// The metadata as text.
pub open spec fn metadata_text(m: ChatgptMetadata) -> (
    Option<Seq<char>>,
    Option<Seq<char>>,
    Option<Seq<char>>,
) {
    (opt_chars(m.0), opt_chars(m.1), opt_chars(m.2))
}

/// The metadata, or none of its parts.
pub open spec fn metadata_or_none(m: Option<ChatgptMetadata>) -> (
    Option<Seq<char>>,
    Option<Seq<char>>,
    Option<Seq<char>>,
) {
    match m {
        Some(x) => metadata_text(x),
        None => (None, None, None),
    }
}

/// The label an account gets from its auth file: the email of a ChatGPT
/// sign-in, the masked API key otherwise, and a generic name where these
/// are missing.
pub open spec fn label_for_auth(auth: AuthFile, metadata: Option<ChatgptMetadata>) -> Seq<char> {
    if chatgpt_mode(auth) {
        match metadata_or_none(metadata).0 {
            Some(e) => e,
            None => "ChatGPT Account"@,
        }
    } else {
        match opt_chars(auth.openai_api_key) {
            Some(k) => masked(k),
            None => "OpenAI API Key"@,
        }
    }
}

/// The label an account gets from its auth file and the metadata read
/// from its identity token.
pub fn default_label_for_auth(auth: &AuthFile, metadata: &Option<ChatgptMetadata>) -> (r: String)
    ensures
        r@ == label_for_auth(*auth, *metadata),
{
    if is_chatgpt_mode(auth) {
        match metadata {
            Some((Some(email), _, _)) => email.clone(),
            _ => {
                let r = String::from_str("ChatGPT Account");
                proof {
                    reveal_strlit("ChatGPT Account");
                }
                r
            },
        }
    } else {
        match &auth.openai_api_key {
            Some(k) => mask_secret(k.clone()),
            None => {
                let r = String::from_str("OpenAI API Key");
                proof {
                    reveal_strlit("OpenAI API Key");
                }
                r
            },
        }
    }
}

/// The number of characters before the first `.`, or all of them.
pub open spec fn until_dot(t: Seq<char>) -> nat
    decreases t.len(),
{
    if t.len() == 0 || t[0] == '.' {
        0
    } else {
        1 + until_dot(t.skip(1))
    }
}

proof fn lemma_until_dot_at(t: Seq<char>, m: int)
    requires
        0 <= m <= t.len(),
        forall|k: int| 0 <= k < m ==> #[trigger] t[k] != '.',
        m < t.len() ==> t[m] == '.',
    ensures
        until_dot(t) == m,
    decreases m,
{
    if m > 0 {
        let u = t.skip(1);
        assert forall|k: int| 0 <= k < m - 1 implies #[trigger] u[k] != '.' by {
            assert(u[k] == t[k + 1]);
        }
        if m - 1 < u.len() {
            assert(u[m - 1] == t[m]);
        }
        lemma_until_dot_at(u, m - 1);
    }
}

/// The second `.`-separated part of a token (`split('.').nth(1)`).
pub open spec fn second_part(token: Seq<char>) -> Option<Seq<char>> {
    let i = until_dot(token);
    if i < token.len() {
        let rest = token.skip(i as int + 1);
        Some(rest.take(until_dot(rest) as int))
    } else {
        None
    }
}

fn dot_from(v: &Vec<char>, from: usize) -> (j: usize)
    requires
        from <= v@.len(),
    ensures
        from <= j <= v@.len(),
        j == from + until_dot(v@.skip(from as int)),
{
    let mut j = from;
    while j < v.len() && v[j] != '.'
        invariant
            from <= j <= v@.len(),
            forall|k: int| from <= k < j ==> #[trigger] v@[k] != '.',
        decreases v@.len() - j,
    {
        j = j + 1;
    }
    proof {
        let t = v@.skip(from as int);
        assert forall|k: int| 0 <= k < j - from implies #[trigger] t[k] != '.' by {
            assert(t[k] == v@[k + from]);
        }
        if j < v@.len() {
            assert(t[j - from] == v@[j as int]);
        }
        lemma_until_dot_at(t, j - from);
    }
    j
}

/// The payload part of a JSON web token.
pub fn jwt_payload_part(token: &str) -> (r: Option<String>)
    ensures
        opt_chars(r) == second_part(token@),
{
    let v = chars_of(token);
    let i = dot_from(&v, 0);
    proof {
        assert(v@.skip(0) == v@);
    }
    if i >= v.len() {
        return None;
    }
    let j = dot_from(&v, i + 1);
    let mut out: Vec<char> = Vec::new();
    let mut k = i + 1;
    while k < j
        invariant
            i + 1 <= k <= j <= v@.len(),
            out@ == v@.subrange(i + 1, k as int),
        decreases j - k,
    {
        out.push(v[k]);
        proof {
            assert(v@.subrange(i + 1, k as int).push(v@[k as int]) == v@.subrange(i + 1, k + 1));
        }
        k = k + 1;
    }
    proof {
        let rest = v@.skip(i + 1);
        assert(rest.take(until_dot(rest) as int) == v@.subrange(i + 1, j as int));
    }
    Some(string_from(&out))
}

/// Why base64 decoding failed, as the `base64` crate reports it.
#[derive(Debug, Clone, Copy, PartialEq, Eq, Structural)]
pub enum Base64Error {
    InvalidByte(usize, u8),
    InvalidLength(usize),
    InvalidLastSymbol(usize, u8),
    InvalidPadding,
}

/// What decoding a text as URL-safe base64 without padding gives.
pub uninterp spec fn url_safe_no_pad_decoded(input: Seq<char>) -> Result<Seq<u8>, Base64Error>;

/// `URL_SAFE_NO_PAD.decode` of the `base64` crate: the outcome depends on
/// the input alone.
#[verifier::external_body]
fn decode_url_safe_no_pad(input: &str) -> (r: Result<Vec<u8>, Base64Error>)
    ensures
        match r {
            Ok(b) => url_safe_no_pad_decoded(input@) == Ok::<Seq<u8>, Base64Error>(b@),
            Err(e) => url_safe_no_pad_decoded(input@) == Err::<Seq<u8>, Base64Error>(e),
        },
{
    match base64::engine::general_purpose::URL_SAFE_NO_PAD.decode(input) {
        Ok(bytes) => Ok(bytes),
        Err(base64::DecodeError::InvalidByte(i, b)) => Err(Base64Error::InvalidByte(i, b)),
        Err(base64::DecodeError::InvalidLength(n)) => Err(Base64Error::InvalidLength(n)),
        Err(base64::DecodeError::InvalidLastSymbol(i, b)) => Err(Base64Error::InvalidLastSymbol(i, b)),
        Err(base64::DecodeError::InvalidPadding) => Err(Base64Error::InvalidPadding),
    }
}

/// How a decoding error reads.
pub open spec fn base64_error_text(e: Base64Error) -> Seq<char> {
    match e {
        Base64Error::InvalidByte(i, b) => "Invalid symbol "@ + decimal(b as nat) + ", offset "@
            + decimal(i as nat) + "."@,
        Base64Error::InvalidLength(n) => "Invalid input length: "@ + decimal(n as nat),
        Base64Error::InvalidLastSymbol(i, b) => "Invalid last symbol "@ + decimal(b as nat)
            + ", offset "@ + decimal(i as nat) + "."@,
        Base64Error::InvalidPadding => "Invalid padding"@,
    }
}

fn push_text(out: &mut Vec<char>, t: &str)
    ensures
        final(out)@ == old(out)@ + t@,
{
    let v = chars_of(t);
    let ghost start = out@;
    for i in 0..v.len()
        invariant
            v@ == t@,
            out@ == start + v@.take(i as int),
    {
        out.push(v[i]);
        proof {
            assert(v@.take(i as int).push(v@[i as int]) == v@.take(i + 1));
        }
    }
    proof {
        assert(v@.take(v@.len() as int) == v@);
    }
}

/// The text of a decoding error.
pub fn base64_error_message(e: Base64Error) -> (r: String)
    ensures
        r@ == base64_error_text(e),
{
    let mut out: Vec<char> = Vec::new();
    match e {
        Base64Error::InvalidByte(i, b) => {
            push_text(&mut out, "Invalid symbol ");
            push_decimal(&mut out, b as u64);
            push_text(&mut out, ", offset ");
            push_decimal(&mut out, i as u64);
            push_text(&mut out, ".");
        },
        Base64Error::InvalidLength(n) => {
            push_text(&mut out, "Invalid input length: ");
            push_decimal(&mut out, n as u64);
        },
        Base64Error::InvalidLastSymbol(i, b) => {
            push_text(&mut out, "Invalid last symbol ");
            push_decimal(&mut out, b as u64);
            push_text(&mut out, ", offset ");
            push_decimal(&mut out, i as u64);
            push_text(&mut out, ".");
        },
        Base64Error::InvalidPadding => {
            push_text(&mut out, "Invalid padding");
        },
    }
    proof {
        assert(out@ == base64_error_text(e));
    }
    string_from(&out)
}

/// The bytes of a token's payload, or why they cannot be had.
pub open spec fn jwt_payload(token: Seq<char>) -> Result<Seq<u8>, Seq<char>> {
    match second_part(token) {
        None => Err("malformed JWT payload"@),
        Some(p) => match url_safe_no_pad_decoded(p) {
            Ok(b) => Ok(b),
            Err(e) => Err("failed to decode JWT payload: "@ + base64_error_text(e)),
        },
    }
}

/// The decoded payload of a JSON web token, whose claims are JSON.
pub fn decode_jwt_payload(token: &str) -> (r: Result<Vec<u8>, String>)
    ensures
        match r {
            Ok(b) => jwt_payload(token@) == Ok::<Seq<u8>, Seq<char>>(b@),
            Err(e) => jwt_payload(token@) == Err::<Seq<u8>, Seq<char>>(e@),
        },
{
    let part = match jwt_payload_part(token) {
        Some(p) => p,
        None => {
            let e = String::from_str("malformed JWT payload");
            proof {
                reveal_strlit("malformed JWT payload");
            }
            return Err(e);
        },
    };
    match decode_url_safe_no_pad(part.as_str()) {
        Ok(bytes) => Ok(bytes),
        Err(e) => {
            let mut out: Vec<char> = Vec::new();
            push_text(&mut out, "failed to decode JWT payload: ");
            let m = base64_error_message(e);
            push_text(&mut out, m.as_str());
            Err(string_from(&out))
        },
    }
}


/// An account as the account store keeps it; `L` is what was last read of
/// its rate limits, which the logic here carries along.
#[derive(Debug, Clone)]
pub struct StoredAccount<L> {
    pub id: String,
    pub kind: AccountKind,
    pub label: String,
    pub codex_home: String,
    pub email: Option<String>,
    pub plan_type: Option<String>,
    pub subscription_active_until: Option<String>,
    pub rate_limits: L,
}

/// The account store: the linked accounts, newest first, and the one in use.
#[derive(Debug, Clone)]
pub struct AccountsStore<L> {
    pub active_account_id: Option<String>,
    pub accounts: Vec<StoredAccount<L>>,
}

/// Whether a label is one that the auth file may replace: empty or one of
/// the generic names.
pub open spec fn label_replaceable(label: Seq<char>) -> bool {
    trim(label).len() == 0 || label == "ChatGPT Account"@ || label == "OpenAI API Key"@
}

/// Whether reading the auth file again changes what the account says.
pub open spec fn hydration_changes<L>(
    a: StoredAccount<L>,
    auth: AuthFile,
    metadata: Option<ChatgptMetadata>,
) -> bool {
    let m = metadata_or_none(metadata);
    ||| a.kind != kind_of_auth(auth)
    ||| (label_replaceable(a.label@) && a.label@ != label_for_auth(auth, metadata))
    ||| opt_chars(a.email) != m.0
    ||| opt_chars(a.plan_type) != m.1
    ||| opt_chars(a.subscription_active_until) != m.2
}

fn opt_text_eq(a: &Option<String>, b: &Option<String>) -> (r: bool)
    ensures
        r == (opt_chars(*a) == opt_chars(*b)),
{
    match (a, b) {
        (Some(x), Some(y)) => text_eq(x.as_str(), y.as_str()),
        (None, None) => true,
        _ => false,
    }
}

fn is_replaceable_label(label: &String) -> (b: bool)
    ensures
        b == label_replaceable(label@),
{
    let t = trim_str(label.as_str());
    let a = text_eq(label.as_str(), "ChatGPT Account");
    let b = text_eq(label.as_str(), "OpenAI API Key");
    proof {
        reveal_strlit("ChatGPT Account");
        reveal_strlit("OpenAI API Key");
    }
    chars_of(t.as_str()).len() == 0 || a || b
}

fn split_metadata(metadata: &Option<ChatgptMetadata>) -> (r: ChatgptMetadata)
    ensures
        metadata_text(r) == metadata_or_none(*metadata),
{
    match metadata {
        Some((e, p, s)) => (copy_text(e), copy_text(p), copy_text(s)),
        None => (None, None, None),
    }
}

/// Brings an account in line with its auth file: its kind, its email, plan
/// and subscription end from the identity token, and its label where the
/// label is still a generic one. Says whether anything changed.
pub fn hydrate_account_metadata<L>(
    account: &mut StoredAccount<L>,
    auth: &AuthFile,
    metadata: &Option<ChatgptMetadata>,
) -> (changed: bool)
    ensures
        changed == hydration_changes(*old(account), *auth, *metadata),
        final(account).id == old(account).id,
        final(account).codex_home == old(account).codex_home,
        final(account).rate_limits == old(account).rate_limits,
        final(account).kind == kind_of_auth(*auth),
        final(account).label@ == if label_replaceable(old(account).label@) {
            label_for_auth(*auth, *metadata)
        } else {
            old(account).label@
        },
        (opt_chars(final(account).email), opt_chars(final(account).plan_type), opt_chars(
            final(account).subscription_active_until,
        )) == metadata_or_none(*metadata),
{
    let next_kind = account_kind_for(auth);
    let next = split_metadata(metadata);
    let next_label = default_label_for_auth(auth, metadata);
    let refresh = is_replaceable_label(&account.label);
    let changed = account.kind != next_kind || (refresh && !text_eq(
        account.label.as_str(),
        next_label.as_str(),
    )) || !opt_text_eq(&account.email, &next.0) || !opt_text_eq(&account.plan_type, &next.1)
        || !opt_text_eq(&account.subscription_active_until, &next.2);
    account.kind = next_kind;
    if refresh {
        account.label = next_label;
    }
    let (e, p, s) = next;
    account.email = e;
    account.plan_type = p;
    account.subscription_active_until = s;
    changed
}

/// The account that a Codex home with this auth file makes, before its
/// limits are first read.
pub fn load_account_from_auth<L>(
    account_id: String,
    codex_home: String,
    auth: &AuthFile,
    metadata: &Option<ChatgptMetadata>,
    rate_limits: L,
) -> (a: StoredAccount<L>)
    ensures
        a.id@ == account_id@,
        a.codex_home@ == codex_home@,
        a.kind == kind_of_auth(*auth),
        a.label@ == label_for_auth(*auth, *metadata),
        (opt_chars(a.email), opt_chars(a.plan_type), opt_chars(a.subscription_active_until))
            == metadata_or_none(*metadata),
        a.rate_limits == rate_limits,
{
    let kind = account_kind_for(auth);
    let label = default_label_for_auth(auth, metadata);
    let (email, plan_type, subscription_active_until) = split_metadata(metadata);
    StoredAccount {
        id: account_id,
        kind,
        label,
        codex_home,
        email,
        plan_type,
        subscription_active_until,
        rate_limits,
    }
}

/// Takes in the identity token's metadata before the limits are read
/// again: the plan and the subscription end are replaced, an email is
/// only filled in where none is known.
pub fn refresh_account_metadata<L>(account: &mut StoredAccount<L>, metadata: Option<ChatgptMetadata>)
    ensures
        final(account).id == old(account).id,
        final(account).kind == old(account).kind,
        final(account).label == old(account).label,
        final(account).codex_home == old(account).codex_home,
        final(account).rate_limits == old(account).rate_limits,
        match metadata {
            Some(m) => {
                &&& opt_chars(final(account).email) == if old(account).email is None {
                    opt_chars(m.0)
                } else {
                    opt_chars(old(account).email)
                }
                &&& opt_chars(final(account).plan_type) == opt_chars(m.1)
                &&& opt_chars(final(account).subscription_active_until) == opt_chars(m.2)
            },
            None => {
                &&& final(account).email == old(account).email
                &&& final(account).plan_type == old(account).plan_type
                &&& final(account).subscription_active_until == old(
                    account,
                ).subscription_active_until
            },
        },
{
    if let Some((email, plan_type, until)) = metadata {
        if account.email.is_none() {
            account.email = email;
        }
        account.plan_type = plan_type;
        account.subscription_active_until = until;
    }
}

/// What the last limits read say of an account's usage: whether either
/// ChatGPT usage window is used up, and the remaining requests and tokens
/// that the API reported.
#[derive(Debug, Clone, PartialEq, Eq)]
pub struct UsageState {
    pub primary_exhausted: bool,
    pub secondary_exhausted: bool,
    pub requests_remaining: Option<String>,
    pub tokens_remaining: Option<String>,
}

/// Why an account cannot run a new app-server, if it cannot.
pub open spec fn unavailable_reason(auth_ready: bool, kind: AccountKind, usage: UsageState) -> Option<
    Seq<char>,
> {
    if !auth_ready {
        Some("missing usable auth"@)
    } else if kind == AccountKind::Chatgpt {
        if usage.secondary_exhausted {
            Some("weekly usage limit reached"@)
        } else if usage.primary_exhausted {
            Some("window usage limit reached"@)
        } else {
            None
        }
    } else if opt_chars(usage.requests_remaining) == Some("0"@) {
        Some("request rate limit reached"@)
    } else if opt_chars(usage.tokens_remaining) == Some("0"@) {
        Some("token rate limit reached"@)
    } else {
        None
    }
}

fn is_zero_text(o: &Option<String>) -> (b: bool)
    ensures
        b == (opt_chars(*o) == Some("0"@)),
{
    match o {
        Some(s) => {
            let r = text_eq(s.as_str(), "0");
            proof {
                reveal_strlit("0");
            }
            r
        },
        None => false,
    }
}

fn literal(t: &str) -> (r: String)
    ensures
        r@ == t@,
{
    String::from_str(t)
}

/// Why an account cannot run a new app-server: no usable credential, a
/// used-up ChatGPT usage window (the weekly one named first), or no
/// requests or tokens left on an API key.
pub fn account_unavailable_reason(auth_ready: bool, kind: AccountKind, usage: &UsageState) -> (r:
    Option<String>)
    ensures
        opt_chars(r) == unavailable_reason(auth_ready, kind, *usage),
{
    proof {
        reveal_strlit("missing usable auth");
        reveal_strlit("weekly usage limit reached");
        reveal_strlit("window usage limit reached");
        reveal_strlit("request rate limit reached");
        reveal_strlit("token rate limit reached");
    }
    if !auth_ready {
        return Some(literal("missing usable auth"));
    }
    if kind == AccountKind::Chatgpt {
        if usage.secondary_exhausted {
            return Some(literal("weekly usage limit reached"));
        }
        if usage.primary_exhausted {
            return Some(literal("window usage limit reached"));
        }
        return None;
    }
    if is_zero_text(&usage.requests_remaining) {
        return Some(literal("request rate limit reached"));
    }
    if is_zero_text(&usage.tokens_remaining) {
        return Some(literal("token rate limit reached"));
    }
    None
}

/// The masked secret shown for an account: that of its API key; none for
/// a ChatGPT sign-in.
pub fn summary_masked_secret(kind: AccountKind, api_key: Option<String>) -> (r: Option<String>)
    ensures
        opt_chars(r) == if kind == AccountKind::ApiKey {
            match opt_chars(api_key) {
                Some(k) => Some(masked(k)),
                None => None,
            }
        } else {
            None
        },
{
    if kind == AccountKind::ApiKey {
        match api_key {
            Some(k) => Some(mask_secret(k)),
            None => None,
        }
    } else {
        None
    }
}


/// The accounts whose id is not `id`, in order.
pub open spec fn without_id<L>(xs: Seq<StoredAccount<L>>, id: Seq<char>) -> Seq<StoredAccount<L>>
    decreases xs.len(),
{
    if xs.len() == 0 {
        xs
    } else {
        let rest = without_id(xs.drop_last(), id);
        if xs.last().id@ != id {
            rest.push(xs.last())
        } else {
            rest
        }
    }
}

/// The accounts whose flag is set, in order.
pub open spec fn flagged<L>(xs: Seq<StoredAccount<L>>, flags: Seq<bool>) -> Seq<StoredAccount<L>>
    decreases xs.len(),
{
    if xs.len() == 0 {
        xs
    } else {
        let rest = flagged(xs.drop_last(), flags.take(xs.len() - 1));
        if flags[xs.len() - 1] {
            rest.push(xs.last())
        } else {
            rest
        }
    }
}

/// The id of the first account, if there is one.
pub open spec fn first_id<L>(xs: Seq<StoredAccount<L>>) -> Option<Seq<char>> {
    if xs.len() > 0 {
        Some(xs[0].id@)
    } else {
        None
    }
}

/// Whether some account has the id.
pub open spec fn has_id<L>(xs: Seq<StoredAccount<L>>, id: Seq<char>) -> bool {
    exists|i: int| 0 <= i < xs.len() && #[trigger] xs[i].id@ == id
}

/// The account in use once the store is settled: a missing one is dropped,
/// and the first account is taken where none is in use.
pub open spec fn settled_active<L>(active: Option<Seq<char>>, xs: Seq<StoredAccount<L>>) -> Option<
    Seq<char>,
> {
    let kept = match active {
        Some(a) => if has_id(xs, a) {
            Some(a)
        } else {
            None
        },
        None => None,
    };
    if kept is None {
        first_id(xs)
    } else {
        kept
    }
}

fn remove_with_id<L>(accounts: &mut Vec<StoredAccount<L>>, id: &str)
    ensures
        final(accounts)@ == without_id(old(accounts)@, id@),
{
    let ghost orig = accounts@;
    let mut i: usize = 0;
    let mut k: usize = 0;
    proof {
        assert(orig.take(0) == Seq::<StoredAccount<L>>::empty());
        assert(orig.skip(0) == orig);
        assert(orig.len() == accounts.len());
    }
    while i < accounts.len()
        invariant
            orig.len() <= usize::MAX,
            k <= orig.len(),
            i <= accounts@.len(),
            accounts@.take(i as int) == without_id(orig.take(k as int), id@),
            accounts@.skip(i as int) == orig.skip(k as int),
            accounts@.len() - i == orig.len() - k,
        decreases orig.len() - k,
    {
        let ghost before = accounts@;
        proof {
            assert(orig.take(k + 1).drop_last() == orig.take(k as int));
            assert(orig.take(k + 1).last() == orig[k as int]);
            assert(before[i as int] == before.skip(i as int)[0]);
            assert(orig.skip(k as int)[0] == orig[k as int]);
        }
        if text_eq(accounts[i].id.as_str(), id) {
            accounts.remove(i);
            proof {
                assert(accounts@.take(i as int) == before.take(i as int));
                assert(accounts@.skip(i as int) == before.skip(i + 1));
                assert(before.skip(i + 1) == orig.skip(k + 1)) by {
                    assert(before.skip(i as int).skip(1) == before.skip(i + 1));
                    assert(orig.skip(k as int).skip(1) == orig.skip(k + 1));
                }
            }
        } else {
            proof {
                assert(accounts@.take(i + 1) == before.take(i as int).push(before[i as int]));
                assert(accounts@.skip(i + 1) == orig.skip(k + 1)) by {
                    assert(before.skip(i as int).skip(1) == before.skip(i + 1));
                    assert(orig.skip(k as int).skip(1) == orig.skip(k + 1));
                }
            }
            i = i + 1;
        }
        k = k + 1;
    }
    proof {
        assert(orig.take(orig.len() as int) == orig);
        assert(accounts@.take(i as int) == accounts@);
    }
}

fn has_account_id<L>(accounts: &Vec<StoredAccount<L>>, id: &str) -> (b: bool)
    ensures
        b == has_id(accounts@, id@),
{
    let mut i: usize = 0;
    while i < accounts.len()
        invariant
            i <= accounts@.len(),
            forall|j: int| 0 <= j < i ==> #[trigger] accounts@[j].id@ != id@,
        decreases accounts@.len() - i,
    {
        if text_eq(accounts[i].id.as_str(), id) {
            return true;
        }
        i = i + 1;
    }
    false
}

fn first_account_id<L>(accounts: &Vec<StoredAccount<L>>) -> (r: Option<String>)
    ensures
        opt_chars(r) == first_id(accounts@),
{
    if accounts.len() > 0 {
        Some(accounts[0].id.clone())
    } else {
        None
    }
}

fn first_home_with_id<L>(accounts: &Vec<StoredAccount<L>>, id: &str) -> (home: Option<String>)
    ensures
        match home {
            Some(h) => exists|i: int|
                0 <= i < accounts@.len() && #[trigger] accounts@[i].id@ == id@ && h@
                    == accounts@[i].codex_home@ && forall|j: int|
                    0 <= j < i ==> #[trigger] accounts@[j].id@ != id@,
            None => !has_id(accounts@, id@),
        },
{
    let mut i: usize = 0;
    while i < accounts.len()
        invariant
            i <= accounts@.len(),
            forall|j: int| 0 <= j < i ==> #[trigger] accounts@[j].id@ != id@,
        decreases accounts@.len() - i,
    {
        if text_eq(accounts[i].id.as_str(), id) {
            let h = accounts[i].codex_home.clone();
            proof {
                assert(accounts@[i as int].id@ == id@);
            }
            return Some(h);
        }
        i = i + 1;
    }
    None
}

/// Removes an account from the store. The account in use moves to the
/// first one left where it was the removed one. Gives the Codex home of
/// the first account that had the id, to be deleted.
pub fn remove_account_from_store<L>(store: &mut AccountsStore<L>, account_id: &str) -> (home:
    Option<String>)
    ensures
        final(store).accounts@ == without_id(old(store).accounts@, account_id@),
        opt_chars(final(store).active_account_id) == if opt_chars(old(store).active_account_id)
            == Some(account_id@) {
            first_id(without_id(old(store).accounts@, account_id@))
        } else {
            opt_chars(old(store).active_account_id)
        },
        match home {
            Some(h) => exists|i: int|
                0 <= i < old(store).accounts@.len() && #[trigger] old(store).accounts@[i].id@
                    == account_id@ && h@ == old(store).accounts@[i].codex_home@ && forall|j: int|
                    0 <= j < i ==> #[trigger] old(store).accounts@[j].id@ != account_id@,
            None => !has_id(old(store).accounts@, account_id@),
        },
{
    let home = first_home_with_id(&store.accounts, account_id);
    remove_with_id(&mut store.accounts, account_id);
    let was_active = match &store.active_account_id {
        Some(a) => text_eq(a.as_str(), account_id),
        None => false,
    };
    if was_active {
        store.active_account_id = first_account_id(&store.accounts);
    }
    home
}

/// Puts a newly linked account first in the store, in place of any account
/// with its id, and makes it the one in use.
pub fn activate_linked_account<L>(store: &mut AccountsStore<L>, account: StoredAccount<L>)
    ensures
        opt_chars(final(store).active_account_id) == Some(account.id@),
        final(store).accounts@ == seq![account] + without_id(old(store).accounts@, account.id@),
{
    store.active_account_id = Some(account.id.clone());
    let id = account.id.clone();
    remove_with_id(&mut store.accounts, id.as_str());
    store.accounts.insert(0, account);
    proof {
        assert(store.accounts@ == seq![account] + without_id(old(store).accounts@, account.id@));
    }
}

/// Settles the account in use: one whose account is gone is dropped, and
/// the first account is taken where none is in use. Says whether it
/// changed.
pub fn settle_active_account<L>(store: &mut AccountsStore<L>) -> (changed: bool)
    ensures
        final(store).accounts == old(store).accounts,
        opt_chars(final(store).active_account_id) == settled_active(
            opt_chars(old(store).active_account_id),
            old(store).accounts@,
        ),
        changed == (opt_chars(final(store).active_account_id) != opt_chars(
            old(store).active_account_id,
        )),
{
    let mut changed = false;
    let missing = match &store.active_account_id {
        Some(a) => !has_account_id(&store.accounts, a.as_str()),
        None => false,
    };
    if missing {
        store.active_account_id = None;
        changed = true;
    }
    if store.active_account_id.is_none() && store.accounts.len() > 0 {
        store.active_account_id = first_account_id(&store.accounts);
        changed = true;
    }
    proof {
        if missing && changed && opt_chars(store.active_account_id) == opt_chars(
            old(store).active_account_id,
        ) {
            let a = opt_chars(old(store).active_account_id)->0;
            assert(store.accounts@[0].id@ == a);
            assert(has_id(old(store).accounts@, a));
        }
    }
    changed
}

/// Keeps the accounts whose flag is set (those with a Codex home that can
/// still sign in). Says whether any was dropped.
pub fn retain_flagged_accounts<L>(store: &mut AccountsStore<L>, keep: &Vec<bool>) -> (changed: bool)
    requires
        keep@.len() == old(store).accounts@.len(),
    ensures
        final(store).accounts@ == flagged(old(store).accounts@, keep@),
        final(store).active_account_id == old(store).active_account_id,
        changed == (final(store).accounts@.len() != old(store).accounts@.len()),
{
    let ghost orig = store.accounts@;
    let n = store.accounts.len();
    let mut i: usize = 0;
    let mut k: usize = 0;
    proof {
        assert(orig.take(0) == Seq::<StoredAccount<L>>::empty());
        assert(orig.skip(0) == orig);
    }
    while k < n
        invariant
            n == orig.len(),
            store.accounts@.len() <= n,
            keep@.len() == n,
            k <= n,
            i <= store.accounts@.len(),
            store.accounts@.take(i as int) == flagged(orig.take(k as int), keep@.take(k as int)),
            store.accounts@.skip(i as int) == orig.skip(k as int),
            store.accounts@.len() - i == n - k,
            store.active_account_id == old(store).active_account_id,
        decreases n - k,
    {
        let ghost before = store.accounts@;
        proof {
            assert(orig.take(k + 1).drop_last() == orig.take(k as int));
            assert(orig.take(k + 1).last() == orig[k as int]);
            assert(keep@.take(k + 1).take(k as int) == keep@.take(k as int));
            assert(keep@.take(k + 1)[k as int] == keep@[k as int]);
            assert(before[i as int] == before.skip(i as int)[0]);
            assert(orig.skip(k as int)[0] == orig[k as int]);
        }
        if !keep[k] {
            store.accounts.remove(i);
            proof {
                assert(store.accounts@.take(i as int) == before.take(i as int));
                assert(store.accounts@.skip(i as int) == before.skip(i + 1));
                assert(before.skip(i + 1) == orig.skip(k + 1)) by {
                    assert(before.skip(i as int).skip(1) == before.skip(i + 1));
                    assert(orig.skip(k as int).skip(1) == orig.skip(k + 1));
                }
            }
        } else {
            proof {
                assert(store.accounts@.take(i + 1) == before.take(i as int).push(before[i as int]));
                assert(store.accounts@.skip(i + 1) == orig.skip(k + 1)) by {
                    assert(before.skip(i as int).skip(1) == before.skip(i + 1));
                    assert(orig.skip(k as int).skip(1) == orig.skip(k + 1));
                }
            }
            i = i + 1;
        }
        k = k + 1;
    }
    proof {
        assert(orig.take(n as int) == orig);
        assert(keep@.take(n as int) == keep@);
        assert(store.accounts@.take(i as int) == store.accounts@);
    }
    store.accounts.len() != n
}


/// The account a new app-server runs with: its id and its Codex home.
#[derive(Debug)]
pub struct ResolvedCodexAccount {
    pub id: String,
    pub codex_home: PathBuf,
}

/// A linked account as the choice of the runtime account sees it.
#[derive(Debug)]
pub struct RuntimeCandidate {
    pub id: String,
    pub codex_home: String,
    /// Its score where it can run an app-server (higher is better), none
    /// where it cannot, or the error met reading its auth file.
    pub score: Result<Option<i64>, String>,
}

/// The chosen runtime account, and whether the store must record it as the
/// account in use.
#[derive(Debug)]
pub struct RuntimeSelection {
    pub account: ResolvedCodexAccount,
    pub update_active: bool,
}

/// Whether the candidate is the account in use.
pub open spec fn is_active_candidate(active: Option<Seq<char>>, c: RuntimeCandidate) -> bool {
    active == Some(c.id@)
}

/// The candidate's score, where it can run an app-server.
pub open spec fn score_of(c: RuntimeCandidate) -> Option<i64> {
    match c.score {
        Ok(Some(s)) => Some(s),
        _ => None,
    }
}

/// The error met reading the candidate's auth file.
pub open spec fn score_error(c: RuntimeCandidate) -> Option<Seq<char>> {
    match c.score {
        Err(e) => Some(e@),
        _ => None,
    }
}

/// Whether the choice ends at this candidate: on an error, or on the
/// account in use when it can run.
pub open spec fn ends_choice(active: Option<Seq<char>>, c: RuntimeCandidate) -> bool {
    c.score is Err || (is_active_candidate(active, c) && score_of(c) is Some)
}

/// Whether the choice goes on past the first `n` candidates.
pub open spec fn passes(active: Option<Seq<char>>, cs: Seq<RuntimeCandidate>, n: int) -> bool {
    forall|j: int| 0 <= j < n ==> !ends_choice(active, #[trigger] cs[j])
}

/// Whether the candidate is the account in use and cannot run.
pub open spec fn stuck_active(active: Option<Seq<char>>, c: RuntimeCandidate) -> bool {
    is_active_candidate(active, c) && c.score == Ok::<Option<i64>, String>(None)
}

/// Whether candidate `k` has the best score above `i64::MIN` among the
/// first `n`, and no earlier one has as good a score.
pub open spec fn best_below(cs: Seq<RuntimeCandidate>, n: int, k: int) -> bool {
    &&& 0 <= k < n
    &&& score_of(cs[k]) is Some
    &&& score_of(cs[k])->0 > i64::MIN
    &&& forall|j: int|
        0 <= j < k ==> (#[trigger] score_of(cs[j])) is None || score_of(cs[j])->0 < score_of(
            cs[k],
        )->0
    &&& forall|j: int|
        k < j < n ==> (#[trigger] score_of(cs[j])) is None || score_of(cs[j])->0 <= score_of(
            cs[k],
        )->0
}

/// Whether none of the first `n` candidates has a score above `i64::MIN`.
pub open spec fn no_score_below(cs: Seq<RuntimeCandidate>, n: int) -> bool {
    forall|j: int|
        0 <= j < n ==> (#[trigger] score_of(cs[j])) is None || score_of(cs[j])->0 == i64::MIN
}

/// Whether candidate `k` is the fallback among the first `n`: the last
/// account in use that cannot run, or else the first account.
pub open spec fn fallback_below(
    active: Option<Seq<char>>,
    cs: Seq<RuntimeCandidate>,
    n: int,
    k: int,
) -> bool {
    &&& 0 <= k < n
    &&& {
        ||| stuck_active(active, cs[k]) && forall|j: int|
            k < j < n ==> !stuck_active(active, #[trigger] cs[j])
        ||| k == 0 && forall|j: int| 0 <= j < n ==> !stuck_active(active, #[trigger] cs[j])
    }
}

/// Whether candidate `k` is the runtime account: the account in use where
/// it can run; else the best scored account; else the fallback.
pub open spec fn chosen_candidate(active: Option<Seq<char>>, cs: Seq<RuntimeCandidate>, k: int) -> bool {
    let n = cs.len() as int;
    ||| 0 <= k < n && passes(active, cs, k) && is_active_candidate(active, cs[k]) && score_of(
        cs[k],
    ) is Some
    ||| passes(active, cs, n) && best_below(cs, n, k)
    ||| passes(active, cs, n) && no_score_below(cs, n) && fallback_below(active, cs, n, k)
}

fn names_account(active: &Option<String>, id: &String) -> (b: bool)
    ensures
        b == (opt_chars(*active) == Some(id@)),
{
    match active {
        Some(a) => text_eq(a.as_str(), id.as_str()),
        None => false,
    }
}

fn resolve_candidate(c: &RuntimeCandidate) -> (r: ResolvedCodexAccount)
    ensures
        r.id@ == c.id@,
        r.codex_home == path_of_text(c.codex_home@),
{
    ResolvedCodexAccount { id: c.id.clone(), codex_home: path_from(c.codex_home.as_str()) }
}

/// Chooses the account a new app-server runs with: the account in use when
/// it can run, else the best scored one, else the account in use that
/// cannot run, else the first. The first error met on the way is returned.
pub fn select_runtime_account(active_account_id: &Option<String>, candidates: &Vec<RuntimeCandidate>) -> (r:
    Result<Option<RuntimeSelection>, String>)
    ensures
        match r {
            Err(e) => exists|k: int|
                0 <= k < candidates@.len() && passes(opt_chars(*active_account_id), candidates@, k)
                    && #[trigger] score_error(candidates@[k]) == Some(e@),
            Ok(None) => candidates@.len() == 0,
            Ok(Some(sel)) => exists|k: int|
                #![trigger candidates@[k]]
                chosen_candidate(opt_chars(*active_account_id), candidates@, k) && sel.account.id@
                    == candidates@[k].id@ && sel.account.codex_home == path_of_text(
                    candidates@[k].codex_home@,
                ) && sel.update_active == (opt_chars(*active_account_id) != Some(
                    candidates@[k].id@,
                )),
        },
{
    let ghost active = opt_chars(*active_account_id);
    let ghost cs = candidates@;
    let n = candidates.len();
    let mut fallback: Option<usize> = None;
    let mut fallback_score: i64 = i64::MIN;
    let mut degraded: Option<usize> = None;
    let mut i: usize = 0;
    while i < n
        invariant
            n == cs.len(),
            cs == candidates@,
            active == opt_chars(*active_account_id),
            i <= n,
            passes(active, cs, i as int),
            fallback is None ==> fallback_score == i64::MIN && no_score_below(cs, i as int),
            fallback is Some ==> best_below(cs, i as int, fallback->0 as int) && fallback_score
                == score_of(cs[fallback->0 as int])->0,
            i == 0 ==> degraded is None,
            i > 0 ==> degraded is Some && fallback_below(active, cs, i as int, degraded->0 as int),
        decreases n - i,
    {
        let c = &candidates[i];
        let here = names_account(active_account_id, &c.id);
        let score: Option<i64> = match &c.score {
            Err(e) => {
                proof {
                    assert(score_error(cs[i as int]) == Some(e@));
                }
                return Err(e.clone());
            },
            Ok(s) => *s,
        };
        if degraded.is_none() {
            degraded = Some(i);
        }
        if here && score.is_none() {
            degraded = Some(i);
        }
        proof {
            assert(score == score_of(cs[i as int]));
            assert(stuck_active(active, cs[i as int]) == (here && score.is_none()));
        }
        match score {
            Some(s) => {
                if here {
                    proof {
                        assert(chosen_candidate(active, cs, i as int));
                    }
                    let account = resolve_candidate(c);
                    return Ok(Some(RuntimeSelection { account, update_active: false }));
                }
                if s > fallback_score {
                    fallback_score = s;
                    fallback = Some(i);
                }
            },
            None => {},
        }
        proof {
            assert(!ends_choice(active, cs[i as int]));
        }
        i = i + 1;
    }
    match fallback {
        Some(f) => {
            let c = &candidates[f];
            let update = !names_account(active_account_id, &c.id);
            proof {
                assert(chosen_candidate(active, cs, f as int));
            }
            let account = resolve_candidate(c);
            return Ok(Some(RuntimeSelection { account, update_active: update }));
        },
        None => {},
    }
    match degraded {
        Some(d) => {
            let c = &candidates[d];
            let update = !names_account(active_account_id, &c.id);
            proof {
                assert(chosen_candidate(active, cs, d as int));
            }
            let account = resolve_candidate(c);
            Ok(Some(RuntimeSelection { account, update_active: update }))
        },
        None => Ok(None),
    }
}


proof fn lemma_without_id_excludes<L>(xs: Seq<StoredAccount<L>>, id: Seq<char>)
    ensures
        !has_id(without_id(xs, id), id),
        without_id(xs, id).len() <= xs.len(),
    decreases xs.len(),
{
    if xs.len() > 0 {
        lemma_without_id_excludes(xs.drop_last(), id);
        let rest = without_id(xs.drop_last(), id);
        if xs.last().id@ != id {
            assert forall|i: int| 0 <= i < rest.push(xs.last()).len() implies #[trigger] rest.push(
                xs.last(),
            )[i].id@ != id by {
                if i < rest.len() {
                    assert(rest.push(xs.last())[i] == rest[i]);
                    assert(!(rest[i].id@ == id));
                }
            }
        }
    }
}

/// A removed account is gone from the store, whatever else it held.
pub proof fn law_removed_account_is_gone<L>(xs: Seq<StoredAccount<L>>, id: Seq<char>)
    ensures
        !has_id(without_id(xs, id), id),
{
    lemma_without_id_excludes(xs, id);
}

/// A newly linked account is in the store exactly once, first.
pub proof fn law_linked_account_once<L>(xs: Seq<StoredAccount<L>>, account: StoredAccount<L>)
    ensures
        ({
            let ys = seq![account] + without_id(xs, account.id@);
            &&& ys[0] == account
            &&& forall|i: int| 1 <= i < ys.len() ==> #[trigger] ys[i].id@ != account.id@
        }),
{
    lemma_without_id_excludes(xs, account.id@);
    let rest = without_id(xs, account.id@);
    let ys = seq![account] + rest;
    assert forall|i: int| 1 <= i < ys.len() implies #[trigger] ys[i].id@ != account.id@ by {
        assert(ys[i] == rest[i - 1]);
        if rest[i - 1].id@ == account.id@ {
            assert(has_id(rest, account.id@));
        }
    }
}

/// Once settled, the account in use is one of the store's accounts, and
/// there is one in use unless the store is empty; settling again changes
/// nothing.
pub proof fn law_settled_active_is_stored<L>(active: Option<Seq<char>>, xs: Seq<StoredAccount<L>>)
    ensures
        settled_active(active, xs) matches Some(a) ==> has_id(xs, a),
        settled_active(active, xs) is None <==> xs.len() == 0,
        settled_active(settled_active(active, xs), xs) == settled_active(active, xs),
{
    if xs.len() > 0 {
        assert(xs[0].id@ == xs[0].id@);
        assert(has_id(xs, xs[0].id@));
    }
}

/// Which account runs a new app-server is determined: at most one
/// candidate is the chosen one.
pub proof fn law_runtime_choice_unique(active: Option<Seq<char>>, cs: Seq<RuntimeCandidate>, j: int, k: int)
    requires
        chosen_candidate(active, cs, j),
        chosen_candidate(active, cs, k),
    ensures
        j == k,
{
    let n = cs.len() as int;
    let first_j = 0 <= j < n && passes(active, cs, j) && is_active_candidate(active, cs[j])
        && score_of(cs[j]) is Some;
    let first_k = 0 <= k < n && passes(active, cs, k) && is_active_candidate(active, cs[k])
        && score_of(cs[k]) is Some;
    if first_j && first_k {
        if j < k {
            assert(!ends_choice(active, cs[j]));
        } else if k < j {
            assert(!ends_choice(active, cs[k]));
        }
    } else if first_j {
        assert(!ends_choice(active, cs[j]));
    } else if first_k {
        assert(!ends_choice(active, cs[k]));
    } else {
        let best_j = passes(active, cs, n) && best_below(cs, n, j);
        let best_k = passes(active, cs, n) && best_below(cs, n, k);
        if best_j && best_k {
            if j < k {
                assert(score_of(cs[j])->0 <= score_of(cs[k])->0);
            } else if k < j {
                assert(score_of(cs[k])->0 <= score_of(cs[j])->0);
            }
        } else if best_j {
            assert(score_of(cs[j])->0 == i64::MIN);
        } else if best_k {
            assert(score_of(cs[k])->0 == i64::MIN);
        } else {
            if j < k {
                if stuck_active(active, cs[k]) {
                    assert(!stuck_active(active, cs[k]));
                }
            } else if k < j {
                if stuck_active(active, cs[j]) {
                    assert(!stuck_active(active, cs[j]));
                }
            }
        }
    }
}

/// A masked secret is as long as the secret, but at least eleven
/// characters once the secret is longer than eight, and shows at most its
/// first three and last four characters.
pub proof fn law_mask_length(s: Seq<char>)
    ensures
        masked(s).len() == if s.len() <= 8 {
            s.len()
        } else if s.len() >= 11 {
            s.len()
        } else {
            11
        },
        s.len() <= 8 ==> forall|i: int| 0 <= i < masked(s).len() ==> #[trigger] masked(s)[i]
            == '*',
{
}

/// A text without escape characters comes out of stripping unchanged.
pub proof fn law_plain_text_unstripped(s: Seq<char>)
    requires
        forall|i: int| 0 <= i < s.len() ==> #[trigger] s[i] != '\u{1b}',
    ensures
        stripped(s) == s,
    decreases s.len(),
{
    if s.len() > 0 {
        let t = s.skip(1);
        assert forall|i: int| 0 <= i < t.len() implies #[trigger] t[i] != '\u{1b}' by {
            assert(t[i] == s[i + 1]);
        }
        law_plain_text_unstripped(t);
        assert(seq![s[0]] + t == s);
    }
}

/// The note on live ChatGPT usage, naming the plan where the endpoint
/// gives one.
pub open spec fn usage_note_text(plan_type: Option<Seq<char>>) -> Seq<char> {
    match plan_type {
        Some(p) => "Live usage fetched from ChatGPT ("@ + p + ")"@,
        None => "Live usage fetched from ChatGPT"@,
    }
}

/// The note stored with live ChatGPT usage.
pub fn usage_note(plan_type: Option<String>) -> (r: String)
    ensures
        r@ == usage_note_text(opt_chars(plan_type)),
{
    proof {
        reveal_strlit("Live usage fetched from ChatGPT (");
        reveal_strlit(")");
        reveal_strlit("Live usage fetched from ChatGPT");
    }
    match plan_type {
        Some(p) => {
            let mut out = chars_of("Live usage fetched from ChatGPT (");
            let v = chars_of(p.as_str());
            extend_chars(&mut out, &v);
            out.push(')');
            proof {
                assert(out@ =~= "Live usage fetched from ChatGPT ("@ + p@ + ")"@);
            }
            string_from(&out)
        },
        None => String::from_str("Live usage fetched from ChatGPT"),
    }
}

/// The place of the first account with the id, if any.
pub fn find_account<L>(store: &AccountsStore<L>, id: &str) -> (r: Option<usize>)
    ensures
        match r {
            Some(i) => i < store.accounts@.len() && store.accounts@[i as int].id@ == id@ && forall|j: int|
                0 <= j < i ==> #[trigger] store.accounts@[j].id@ != id@,
            None => !has_id(store.accounts@, id@),
        },
{
    let mut i: usize = 0;
    while i < store.accounts.len()
        invariant
            i <= store.accounts@.len(),
            forall|j: int| 0 <= j < i ==> #[trigger] store.accounts@[j].id@ != id@,
        decreases store.accounts@.len() - i,
    {
        if text_eq(store.accounts[i].id.as_str(), id) {
            return Some(i);
        }
        i = i + 1;
    }
    None
}

/// Puts an account found on disk, which the store did not know, first.
pub fn adopt_account<L>(store: &mut AccountsStore<L>, account: StoredAccount<L>)
    ensures
        final(store).accounts@ == seq![account] + old(store).accounts@,
        final(store).active_account_id == old(store).active_account_id,
{
    store.accounts.insert(0, account);
    proof {
        assert(store.accounts@ =~= seq![account] + old(store).accounts@);
    }
}

/// What to do with an account's Codex home: the candidates are where the
/// store says it is, where it belongs under the current data directory, and
/// where it was under the older data directory.
#[derive(Debug, Clone, Copy, PartialEq, Eq, Structural)]
pub enum HomePlan {
    /// No candidate can sign in: the store keeps what it says.
    Keep,
    /// The account's home is the candidate at this place.
    Settle(usize),
    /// Move the candidate at this place to the current home, then settle on
    /// the current home if it can sign in there, else on the candidate.
    MoveThenSettle(usize),
}

/// The place of the first candidate that can sign in, or -1.
pub open spec fn first_usable(usable: Seq<bool>) -> int
    decreases usable.len(),
{
    if usable.len() == 0 {
        -1
    } else if first_usable(usable.drop_last()) >= 0 {
        first_usable(usable.drop_last())
    } else if usable.last() {
        usable.len() - 1
    } else {
        -1
    }
}

/// The plan for an account's home: the first candidate that can sign in
/// is taken, unless it is not the current home and the current home can
/// sign in, which is then preferred; a candidate elsewhere is moved to the
/// current home where nothing is there yet.
pub open spec fn home_plan(usable: Seq<bool>, current: int, current_auth_exists: bool) -> HomePlan {
    let f = first_usable(usable);
    if f < 0 {
        HomePlan::Keep
    } else if f == current || usable[current] {
        HomePlan::Settle(current as usize)
    } else if !current_auth_exists {
        HomePlan::MoveThenSettle(f as usize)
    } else {
        HomePlan::Settle(f as usize)
    }
}

proof fn lemma_first_usable_bounds(usable: Seq<bool>)
    ensures
        first_usable(usable) >= 0 ==> first_usable(usable) < usable.len() && usable[first_usable(
            usable,
        )],
        first_usable(usable) < 0 ==> first_usable(usable) == -1 && forall|i: int|
            0 <= i < usable.len() ==> !usable[i],
    decreases usable.len(),
{
    if usable.len() > 0 {
        lemma_first_usable_bounds(usable.drop_last());
        assert forall|i: int| 0 <= i < usable.len() - 1 implies usable.drop_last()[i] == usable[i] by {}
    }
}

/// Plans the home of an account from which candidates can sign in, the
/// place of the current home among them, and whether an auth file is
/// already at the current home.
pub fn plan_account_home(usable: &Vec<bool>, current: usize, current_auth_exists: bool) -> (r: HomePlan)
    requires
        current < usable@.len(),
    ensures
        r == home_plan(usable@, current as int, current_auth_exists),
{
    let mut i: usize = 0;
    let mut found: Option<usize> = None;
    while i < usable.len()
        invariant
            i <= usable@.len(),
            found matches Some(f) ==> f == first_usable(usable@.take(i as int)) && f < i,
            found is None ==> first_usable(usable@.take(i as int)) == -1,
        decreases usable@.len() - i,
    {
        proof {
            assert(usable@.take(i + 1).drop_last() == usable@.take(i as int));
        }
        if found.is_none() && usable[i] {
            found = Some(i);
        }
        i = i + 1;
    }
    proof {
        assert(usable@.take(usable@.len() as int) == usable@);
        lemma_first_usable_bounds(usable@);
    }
    match found {
        None => HomePlan::Keep,
        Some(f) => {
            if f == current || usable[current] {
                HomePlan::Settle(current)
            } else if !current_auth_exists {
                HomePlan::MoveThenSettle(f)
            } else {
                HomePlan::Settle(f)
            }
        },
    }
}

/// Where a moved home settles: at the current home when it can sign in
/// after the move, else at the candidate it came from.
pub fn home_after_move(current: usize, moved_from: usize, current_usable: bool) -> (r: usize)
    ensures
        r == if current_usable {
            current
        } else {
            moved_from
        },
{
    if current_usable {
        current
    } else {
        moved_from
    }
}

/// A plan never moves the current home onto itself, and settles on a
/// candidate that can sign in or on the current home.
pub proof fn law_home_plan_settles_on_a_candidate(usable: Seq<bool>, current: int, current_auth_exists: bool)
    requires
        0 <= current < usable.len(),
        usable.len() <= usize::MAX,
    ensures
        match home_plan(usable, current, current_auth_exists) {
            HomePlan::Keep => forall|i: int| 0 <= i < usable.len() ==> !usable[i],
            HomePlan::Settle(k) => k == current || (k < usable.len() && usable[k as int]),
            HomePlan::MoveThenSettle(k) => k != current && k < usable.len() && usable[k as int]
                && !usable[current],
        },
{
    lemma_first_usable_bounds(usable);
}

} // verus!
