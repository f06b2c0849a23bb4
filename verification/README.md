# zhongshu_core

The decision core of a multi-agent coding assistant, written in Verus: every
function in `src/` carries a `requires`/`ensures` contract that Verus proves.

## Layout

- `src/execution_graph/` — the durable execution graph: nodes, edges,
  artifacts, effect intents, the transition history, checkpoints and
  recovery, failure propagation (`settle_unreachable`) and the ready-set
  scheduler (`run_ready`). `laws.rs` holds the properties that span several
  operations (snapshot round trip, idempotent settling, recovery of a graph
  that needs none).
- `src/organization/` — routing a task to an organization, compiling a
  staffing decision into an execution graph.
- `src/orchestrator/` — the step machines of the organization, mutation,
  review and worker-batch runs (state and event in, next state and actions
  out), and the decisions they rest on: claims, worker results, review,
  patch application and how each gate's observed result is projected onto
  the graph.
- `src/agent_loop/` — the step machine of a single agent run, with its
  budget and verification decisions, and what it reads from tool-call
  arguments.
- `src/intent.rs`, `src/attention.rs`, `src/streaming.rs`, `src/sse.rs`,
  `src/llm*.rs`, `src/auto_delegation.rs`, `src/patch.rs`, `src/scripted.rs`
  — interjection intents, attention levels, streamed tool calls, server-sent
  event framing, model profiles, delegation planning, patch proposals and a
  scripted model client.
- `app/` — plain Rust around the library: JSON (de)serialisation through
  serde, event formatting, other I/O edges, and the loops that perform the
  actions the step machines ask for.
- `tests/` — executable tests of the library.
