//! The mechanics of a coding-agent harness: the message model, a scripted
//! model, tools, the agent loop, history compaction and stream handling, and
//! the decisions of an agent that talks to a Responses-style backend.
pub mod agent;
pub mod bash;
pub mod compaction;
pub mod message;
pub mod model;
pub mod responses;
pub mod sse;
pub mod stream;
pub mod text;
pub mod tools;

pub use agent::run_agent_loop;
pub use bash::{finish_bash_output, plan_call, plan_calls, screen_command, CallPlan};
pub use compaction::compact_keep_recent_turns;
pub use message::{Message, ModelStep, Role, ToolCall};
pub use model::ScriptedModel;
pub use responses::{
    absorb_turn, check_response, record_tool_output, AgentError, ContentPart, InputItem,
    PendingCall, SseEvent, TurnPlan,
};
pub use sse::sse_data_payloads;
pub use stream::{consume_stream, consumed_len, StreamEvent};
pub use text::char_prefix;
pub use tools::{EchoTool, ShellTool, Tool};
