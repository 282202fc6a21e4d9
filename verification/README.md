# miawk

The logic of MIAWK, a shell for chat turns with the Codex app-server, its
agents and the accounts they run under, written in Verus: each function states
what it returns in `requires` / `ensures` clauses, and Verus proves it.

## Layout

- `src/` — the verified library.
  - `swarm.rs`: the projection of stream events into the tree of turns and
    agents, with its laws (events keep the turns, a completion ends its turn,
    an interrupted or failed turn stays so).
  - `swarm_shape.rs`: the shape of the projection (unique node ids, thread
    links to agent nodes, child lists that agree with parent ids), proved
    kept by every step and held by `SwarmProjection` as its type invariant,
    and what it gives the agent tree: no node shown twice, each child under
    its parent, every active agent shown once where no active agents form a
    cycle.
  - `turn.rs`: what a running turn makes of each app-server notification.
  - `chat.rs`: the transcript, inbox questions and the Markdown export.
  - `autodrive.rs`: whether Auto Drive goes on after a turn, and its prompt.
  - `accounts.rs`: the account store, device sign-in output, JWT payloads and
    the choice of the account an app-server runs with.
  - `rpc.rs`, `requests.rs`, `json.rs`, `stream.rs`: the JSON-RPC framing and
    the messages exchanged with the app-server.
  - `settings.rs`, `forms.rs`, `catalog.rs`, `display.rs`, `codex.rs`,
    `markdown.rs`, `tokens.rs`, `text.rs`, `paths.rs`, `runtime.rs`: settings,
    form fields, the models table, display text, Codex releases, message HTML
    and the shared text helpers.
- `tests/` — tests on concrete values, run against the compiled library.
- `app/` — a terminal front end: files, processes, the websocket to the
  app-server, HTTP, and the few computations on floating-point numbers.

Calls into `base64`, `pulldown-cmark`, `ammonia`, `flate2` and `tar`, and a
few functions of `std`, sit behind small trusted wrappers whose contracts are
stated next to them.
