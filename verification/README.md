# rust_course

The mechanics of a coding-agent harness, verified with Verus.

- `src/message.rs` — roles, messages, tool calls and model steps, with their views.
- `src/model.rs` — a scripted model that replays its steps in order.
- `src/tools.rs` — the `Tool` trait, the echo tool and the allowlist of the shell tool.
- `src/agent.rs` — the agent loop and the laws of the histories it produces.
- `src/compaction.rs` — history compaction that never starts its kept part with a tool result.
- `src/stream.rs` — collecting the text of an event stream whose errors are events.
- `src/sse.rs`, `src/responses.rs`, `src/bash.rs` — the decisions of an agent that talks to a
  Responses-style backend: framing the stream, reading a turn, planning one answer per call,
  screening commands and shaping their output.
- `src/text.rs` — the character-level string operations the rest is built on.

`app/` runs the labs and the networked agent: process spawning, HTTP, JSON (de)serialization
and printing live there.
