//! The app's settings, where they are kept, and what they decide for the
//! Codex app-server: its agent limits, its command line, and when a
//! running one must make way for a new one.
use std::path::PathBuf;

use vstd::prelude::*;

use crate::paths::{join_path, path_from, path_joined, path_of_text};
use crate::text::{chars_of, decimal, push_decimal, string_from, text_eq};

verus! {

/// The settings a user chooses.
#[derive(Debug, Clone, PartialEq, Eq)]
pub struct AppSettings {
    pub agent_max_threads: usize,
    pub agent_max_depth: i32,
    pub auto_drive_enabled: bool,
    pub auto_drive_mode: String,
    pub auto_drive_max_turns: Option<u32>,
    pub auto_drive_max_runtime_hours: Option<u32>,
    pub current_workspace_path: String,
}

/// How many agent threads run at once unless the user says otherwise.
pub open spec fn default_threads() -> usize {
    16
}

/// How deep agents nest unless the user says otherwise.
pub open spec fn default_depth() -> i32 {
    1
}

fn default_agent_max_threads() -> (n: usize)
    ensures
        n == default_threads(),
{
    16
}

fn default_agent_max_depth() -> (n: i32)
    ensures
        n == default_depth(),
{
    1
}

fn default_auto_drive_mode() -> (s: String)
    ensures
        s@ == "completion"@,
{
    proof {
        reveal_strlit("completion");
    }
    String::from_str("completion")
}

impl AppSettings {
    /// The default settings, working in the given workspace.
    pub fn with_workspace(current_workspace_path: String) -> (s: AppSettings)
        ensures
            s.agent_max_threads == default_threads(),
            s.agent_max_depth == default_depth(),
            !s.auto_drive_enabled,
            s.auto_drive_mode@ == "completion"@,
            s.auto_drive_max_turns is None,
            s.auto_drive_max_runtime_hours is None,
            s.current_workspace_path@ == current_workspace_path@,
    {
        AppSettings {
            agent_max_threads: default_agent_max_threads(),
            agent_max_depth: default_agent_max_depth(),
            auto_drive_enabled: false,
            auto_drive_mode: default_auto_drive_mode(),
            auto_drive_max_turns: None,
            auto_drive_max_runtime_hours: None,
            current_workspace_path,
        }
    }
}

/// Where the settings are kept: a file in the app's data directory.
#[derive(Debug)]
pub struct SettingsService {
    data_dir: PathBuf,
}

impl SettingsService {
    /// The data directory the settings live in.
    pub closed spec fn dir(&self) -> PathBuf {
        self.data_dir
    }

    /// A settings service over a data directory.
    pub fn new(data_dir: PathBuf) -> (s: SettingsService)
        ensures
            s.dir() == data_dir,
    {
        SettingsService { data_dir }
    }

    /// The settings file: `settings.json` in the data directory.
    pub fn path(&self) -> (p: PathBuf)
        ensures
            p == path_joined(self.dir(), "settings.json"@),
    {
        join_path(&self.data_dir, "settings.json")
    }

    /// The workspace the loaded settings name, or the error met loading
    /// them.
    pub fn current_workspace_path(&self, loaded: Result<AppSettings, String>) -> (r: Result<
        PathBuf,
        String,
    >)
        ensures
            match loaded {
                Ok(s) => r == Ok::<PathBuf, String>(path_of_text(s.current_workspace_path@)),
                Err(e) => r matches Err(f) && f@ == e@,
            },
    {
        match loaded {
            Ok(s) => Ok(path_from(s.current_workspace_path.as_str())),
            Err(e) => Err(e),
        }
    }
}

/// The agent limits an app-server is started with: those of the settings,
/// none below one.
pub fn app_server_limits(settings: &AppSettings) -> (r: (usize, i32))
    ensures
        r.0 == if settings.agent_max_threads >= 1 {
            settings.agent_max_threads
        } else {
            1
        },
        r.1 == if settings.agent_max_depth >= 1 {
            settings.agent_max_depth
        } else {
            1
        },
{
    let threads = if settings.agent_max_threads >= 1 {
        settings.agent_max_threads
    } else {
        1
    };
    let depth = if settings.agent_max_depth >= 1 {
        settings.agent_max_depth
    } else {
        1
    };
    (threads, depth)
}

/// The context window of a long-context app-server.
pub open spec fn long_context_window() -> nat {
    1_000_000
}

/// The token count at which a long-context app-server compacts.
pub open spec fn long_context_compact_limit() -> nat {
    950_000
}

/// The decimal text of an integer that may be negative.
pub open spec fn signed_decimal(n: int) -> Seq<char> {
    if n < 0 {
        seq!['-'] + decimal((-n) as nat)
    } else {
        decimal(n as nat)
    }
}

/// The address an app-server on a local port listens on.
pub open spec fn listen_url(port: u16) -> Seq<char> {
    "ws://127.0.0.1:"@ + decimal(port as nat)
}

/// The arguments an app-server is started with.
pub open spec fn launch_args(threads: usize, depth: i32, long_context: bool, port: u16) -> Seq<
    Seq<char>,
> {
    let limits = seq![
        "-c"@,
        "agents.max_threads="@ + decimal(threads as nat),
        "-c"@,
        "agent_max_depth="@ + signed_decimal(depth as int),
    ];
    let context = if long_context {
        seq![
            "-c"@,
            "model_context_window="@ + decimal(long_context_window()),
            "-c"@,
            "model_auto_compact_token_limit="@ + decimal(long_context_compact_limit()),
        ]
    } else {
        Seq::empty()
    };
    limits + context + seq!["app-server"@, "--listen"@, listen_url(port)]
}

fn text_with_number(prefix: &str, n: u64) -> (r: String)
    ensures
        r@ == prefix@ + decimal(n as nat),
{
    let mut out = chars_of(prefix);
    push_decimal(&mut out, n);
    string_from(&out)
}

fn text_with_signed(prefix: &str, n: i32) -> (r: String)
    ensures
        r@ == prefix@ + signed_decimal(n as int),
{
    let mut out = chars_of(prefix);
    if n < 0 {
        out.push('-');
        let m: u64 = (0 - (n as i64)) as u64;
        push_decimal(&mut out, m);
    } else {
        push_decimal(&mut out, n as u64);
    }
    string_from(&out)
}

fn text(t: &str) -> (r: String)
    ensures
        r@ == t@,
{
    String::from_str(t)
}

/// The address an app-server on `port` listens on.
pub fn app_server_url(port: u16) -> (r: String)
    ensures
        r@ == listen_url(port),
{
    proof {
        reveal_strlit("ws://127.0.0.1:");
    }
    text_with_number("ws://127.0.0.1:", port as u64)
}

/// The arguments that start an app-server with the given agent limits,
/// context length and port.
pub fn app_server_args(threads: usize, depth: i32, long_context: bool, port: u16) -> (r: Vec<String>)
    ensures
        r@.map_values(|a: String| a@) == launch_args(threads, depth, long_context, port),
{
    proof {
        reveal_strlit("-c");
        reveal_strlit("agents.max_threads=");
        reveal_strlit("agent_max_depth=");
        reveal_strlit("model_context_window=");
        reveal_strlit("model_auto_compact_token_limit=");
        reveal_strlit("app-server");
        reveal_strlit("--listen");
    }
    let mut out: Vec<String> = Vec::new();
    out.push(text("-c"));
    out.push(text_with_number("agents.max_threads=", threads as u64));
    out.push(text("-c"));
    out.push(text_with_signed("agent_max_depth=", depth));
    if long_context {
        out.push(text("-c"));
        out.push(text_with_number("model_context_window=", 1_000_000));
        out.push(text("-c"));
        out.push(text_with_number("model_auto_compact_token_limit=", 950_000));
    }
    out.push(text("app-server"));
    out.push(text("--listen"));
    out.push(app_server_url(port));
    proof {
        assert(out@.map_values(|a: String| a@) == launch_args(threads, depth, long_context, port));
    }
    out
}

/// What a running app-server was started with.
#[derive(Debug, Clone, PartialEq, Eq)]
pub struct RunningServer {
    pub account_id: String,
    pub long_context: bool,
    pub agent_max_threads: usize,
    pub agent_max_depth: i32,
}

/// What happens to a running app-server before a turn.
#[derive(Debug, Clone, Copy, PartialEq, Eq, Structural)]
pub enum ServerVerdict {
    /// It has exited: forget it.
    Forget,
    /// It no longer fits: stop it and start another.
    Replace,
    /// It fits: use it if it answers, else stop it and start another.
    Probe,
}

/// The verdict on a running app-server: one that exited is forgotten; one
/// for another account than the selected one, another context length or
/// other agent limits is replaced; any other is probed.
pub open spec fn verdict_of(
    exited: bool,
    selected: Option<Seq<char>>,
    running: RunningServer,
    long_context: bool,
    threads: usize,
    depth: i32,
) -> ServerVerdict {
    if exited {
        ServerVerdict::Forget
    } else if selected is Some && selected->0 != running.account_id@ {
        ServerVerdict::Replace
    } else if running.long_context != long_context {
        ServerVerdict::Replace
    } else if running.agent_max_threads != threads || running.agent_max_depth != depth {
        ServerVerdict::Replace
    } else {
        ServerVerdict::Probe
    }
}

/// Decides what happens to a running app-server before a turn.
pub fn running_server_verdict(
    exited: bool,
    selected_account_id: &Option<String>,
    running: &RunningServer,
    long_context: bool,
    threads: usize,
    depth: i32,
) -> (v: ServerVerdict)
    ensures
        v == verdict_of(
            exited,
            match selected_account_id {
                Some(s) => Some(s@),
                None => None::<Seq<char>>,
            },
            *running,
            long_context,
            threads,
            depth,
        ),
{
    if exited {
        return ServerVerdict::Forget;
    }
    let other_account = match selected_account_id {
        Some(s) => !text_eq(s.as_str(), running.account_id.as_str()),
        None => false,
    };
    if other_account {
        ServerVerdict::Replace
    } else if running.long_context != long_context {
        ServerVerdict::Replace
    } else if running.agent_max_threads != threads || running.agent_max_depth != depth {
        ServerVerdict::Replace
    } else {
        ServerVerdict::Probe
    }
}

/// Where a new workspace goes under a home directory: `MIAWK/General`.
pub fn default_workspace_under(home: &PathBuf) -> (r: PathBuf)
    ensures
        r == path_joined(path_joined(*home, "MIAWK"@), "General"@),
{
    let app = join_path(home, "MIAWK");
    join_path(&app, "General")
}

/// A running app-server is kept (probed) only when it has not exited and
/// runs the selected account (or none is selected), the same long-context
/// setting, the same number of agent threads and the same agent depth; an
/// exited one is forgotten, and any difference replaces it.
pub proof fn law_changed_server_is_replaced(
    exited: bool,
    selected: Option<Seq<char>>,
    running: RunningServer,
    long_context: bool,
    threads: usize,
    depth: i32,
)
    ensures
        exited ==> verdict_of(exited, selected, running, long_context, threads, depth)
            == ServerVerdict::Forget,
        !exited && running.agent_max_depth != depth ==> verdict_of(
            exited,
            selected,
            running,
            long_context,
            threads,
            depth,
        ) == ServerVerdict::Replace,
        !exited && running.agent_max_threads != threads ==> verdict_of(
            exited,
            selected,
            running,
            long_context,
            threads,
            depth,
        ) == ServerVerdict::Replace,
        !exited && running.long_context != long_context ==> verdict_of(
            exited,
            selected,
            running,
            long_context,
            threads,
            depth,
        ) == ServerVerdict::Replace,
        !exited && (selected matches Some(a) && a != running.account_id@) ==> verdict_of(
            exited,
            selected,
            running,
            long_context,
            threads,
            depth,
        ) == ServerVerdict::Replace,
        (verdict_of(exited, selected, running, long_context, threads, depth) == ServerVerdict::Probe)
            <==> (!exited && (selected matches Some(a) ==> a == running.account_id@)
            && running.long_context == long_context && running.agent_max_threads == threads
            && running.agent_max_depth == depth),
{
}

} // verus!
