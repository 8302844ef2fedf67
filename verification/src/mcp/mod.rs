//! Tools of MCP servers: which servers are started and how, and how their tools are called.

pub mod manager;
pub mod tool;
pub mod transport;

pub use tool::McpTool;
