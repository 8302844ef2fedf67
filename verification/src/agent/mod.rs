//! The agent: the conversation, its checkpoints, its context, its turns and what it shows.

pub mod ask_user;
pub mod checkpoint;
pub mod context;
pub mod subagent;
pub mod thread;
pub mod turn;
pub mod ui;

pub use thread::Thread;
