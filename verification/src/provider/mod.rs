//! The model-facing types: messages, requests, stream events, usage.

pub mod event;
pub mod genai_provider;
pub mod llm_log;
pub mod request;

pub use event::{Event, StopReason, ToolCall, Usage};
pub use request::{ChatRequest, Message, ToolSpec};
