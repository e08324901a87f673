# runtime

An agent runtime: agents with intents and programs, a process table and a
pluggable scheduler, inter-agent channels, a small file system with
per-agent homes and generated `/proc` files, growth-based sovereignty
levels, and a negotiation protocol through which level-3 agents amend
each other's execution plans.

## Layout

- `src/` — the library, written in Verus. Every function carries a
  contract that Verus checks; the laws that span several operations are
  public proof functions next to the code they speak of (for example
  `lemma_fifo_runs_in_ready_order`, `lemma_calls_drain`, `lemma_read_back_write`,
  `lemma_answer_once`, `lemma_sent_then_polled`).
  - `scheduling/` — the `Scheduler` trait, the FIFO policy and `Runtime`.
  - `ipc/` — point-to-point and broadcast channels, and the broker.
  - `fs/` — paths and the agent file system (open, read, write, seek,
    close, list, with permissions and file locks).
  - `negotiation/` — sessions, the protocol engine, its messages and the
    collection of collaboration events.
  - `sovereignty.rs`, `level_order.rs` — levels and their order, the
    sovereignty API and access decisions.
  - `mock_agent.rs`, `intent.rs`, `record.rs`, `state.rs` — agents and
    their records.
  - `tool.rs` — tool results and arguments, the echo and memory tools,
    the shell tool's argument check, unknown tools.
  - `search.rs`, `lists.rs`, `text.rs` — text search and trimming, bounded
    and keyed lists, decimal text.
  - `ids.rs`, `clock.rs`, `json.rs` — the calls into `uuid`, `chrono` and
    `serde_json`, each behind a small trusted function.
- `app/` — ordinary Rust around the library: the `Agent` trait and step
  context, trust scores and everything computed from them (floating
  point), tools (JSON values and processes), persistence of negotiation
  data, and the serde forms of library types.
- `tests/` — tests of the library.
