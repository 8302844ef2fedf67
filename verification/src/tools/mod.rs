//! The tools that the model can call.

pub mod args;
pub mod bash;
pub mod edit_file;
pub mod glob_tool;
pub mod grep;
pub mod read_file;
pub mod registry;
pub mod save_memory;
pub mod specs;
pub mod todo_write;
pub mod write_file;

pub use args::{is_concurrent_safe, truncate, ToolResult};
pub use registry::ToolRegistry;
pub use todo_write::{parse_todos, TodoItem, TodoStatus};
